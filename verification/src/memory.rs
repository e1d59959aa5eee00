//! The in-memory datastore: the vertex map, the edge map, and the two
//! indexes over the edges that answer range queries.

use crate::errors::Error;
use crate::index::{
    count_in, edge_views, find_edge, insert_sorted, lemma_key_lt_asymmetric,
    lemma_select_contains, lemma_select_sorted, page, range_of, retain, same_edges, select,
    sorted, EdgeFilter, EdgeFilterView, IndexKind,
};
use crate::metadata::{
    clone_json_value, entry_views, find_entry, keys_distinct, lemma_metadata_map_holds,
    lemma_spared_map, metadata_map, put_entry, without_entries, EntryFilter, EntryFilterView,
    EntryView, MetadataEntry, MetadataKeyView, Scope, ScopeView,
};
use crate::models::{
    incident, Edge, EdgeKey, EdgeKeyView, EdgeView, Type, Vertex, VertexView, Weight,
};
use crate::util::{
    checked_nanos_since_epoch, generate_uuid_v1, is_random_layout, is_random_value, uuid_bytes,
    uuid_to_u128, uuid_value, wall_clock, Timestamp,
};
use crate::vertices::{
    ascending, find_vertex, lemma_vertex_map_holds, put_vertex, range_from, remove_vertex,
    vertex_map, vertex_page, vertex_views,
};
use serde_json::Value as JsonValue;
use vstd::prelude::*;

verus! {

/// What the datastore keeps for an edge besides its identity.
pub struct EdgeData {
    pub weight: u32,
    pub updated_at: u64,
}

/// What is kept for an edge besides its identity.
pub open spec fn data_of(e: EdgeView) -> EdgeData {
    EdgeData { weight: e.weight, updated_at: e.updated_at }
}

/// The edge of a given identity and data.
pub open spec fn edge_of(key: EdgeKeyView, data: EdgeData) -> EdgeView {
    EdgeView { key, weight: data.weight, updated_at: data.updated_at }
}

/// Whether no two edges of a sequence share an identity.
pub open spec fn identities_distinct(s: Seq<EdgeView>) -> bool {
    forall|i: int, j: int| 0 <= i < j < s.len() ==> (#[trigger] s[i]).key != (#[trigger] s[j]).key
}

/// The map from identity to weight and time that a sequence of edges stands
/// for.
pub open spec fn edge_map(s: Seq<EdgeView>) -> Map<EdgeKeyView, EdgeData> {
    Map::new(
        |key: EdgeKeyView| exists|i: int| 0 <= i < s.len() && (#[trigger] s[i]).key == key,
        |key: EdgeKeyView|
            data_of(s[choose|i: int| 0 <= i < s.len() && (#[trigger] s[i]).key == key]),
    )
}

/// Where identities are distinct, the map holds data for an identity exactly
/// when the sequence holds that edge.
pub proof fn lemma_edge_map_holds(s: Seq<EdgeView>)
    requires
        identities_distinct(s),
    ensures
        forall|e: EdgeView|
            (edge_map(s).contains_key(e.key) && edge_map(s)[e.key] == data_of(e))
                <==> #[trigger] s.contains(e),
{
    assert forall|e: EdgeView|
        (edge_map(s).contains_key(e.key) && edge_map(s)[e.key] == data_of(e))
            <==> #[trigger] s.contains(e) by {
        if edge_map(s).contains_key(e.key) && edge_map(s)[e.key] == data_of(e) {
            let i = choose|i: int| 0 <= i < s.len() && (#[trigger] s[i]).key == e.key;
            assert(s[i] == e);
        }
        if s.contains(e) {
            let k = choose|k: int| 0 <= k < s.len() && s[k] == e;
            assert(s[k].key == e.key);
            let i = choose|i: int| 0 <= i < s.len() && (#[trigger] s[i]).key == e.key;
            assert(i == k) by {
                if i < k {
                    assert(s[i].key != s[k].key);
                }
                if k < i {
                    assert(s[k].key != s[i].key);
                }
            }
        }
    }
}

/// A sequence of distinct identities stands for the map `m` when it holds
/// exactly the edges that `m` describes.
pub proof fn lemma_edge_map_is(s: Seq<EdgeView>, m: Map<EdgeKeyView, EdgeData>)
    requires
        identities_distinct(s),
        forall|e: EdgeView|
            (m.contains_key(e.key) && m[e.key] == data_of(e)) <==> #[trigger] s.contains(e),
    ensures
        edge_map(s) == m,
{
    lemma_edge_map_holds(s);
    let n = edge_map(s);
    assert forall|key: EdgeKeyView| n.contains_key(key) <==> m.contains_key(key) by {
        if n.contains_key(key) {
            assert(s.contains(edge_of(key, n[key])));
        }
        if m.contains_key(key) {
            assert(s.contains(edge_of(key, m[key])));
        }
    }
    assert forall|key: EdgeKeyView| n.contains_key(key) implies n[key] == m[key] by {
        assert(s.contains(edge_of(key, n[key])));
    }
    assert(n =~= m);
}

/// A sequence in the order of identities holds no identity twice.
pub proof fn lemma_primary_sorted_distinct(s: Seq<EdgeView>)
    requires
        sorted(IndexKind::Primary, s),
    ensures
        identities_distinct(s),
{
    assert forall|i: int, j: int| 0 <= i < j < s.len() implies
            (#[trigger] s[i]).key != (#[trigger] s[j]).key by {
        lemma_key_lt_asymmetric(
            crate::index::sort_key(IndexKind::Primary, s[i]),
            crate::index::sort_key(IndexKind::Primary, s[j]),
        );
    }
}

/// What the datastore holds, as plain values.
pub struct DatastoreView {
    /// The type tag of each vertex.
    pub vertices: Map<u128, Seq<u8>>,
    /// The weight and time of each edge.
    pub edges: Map<EdgeKeyView, EdgeData>,
    /// The value of each piece of metadata.
    pub metadata: Map<MetadataKeyView, JsonValue>,
}

impl DatastoreView {
    /// Whether both ends of an edge identity are vertices of the datastore.
    pub open spec fn has_ends(self, key: EdgeKeyView) -> bool {
        self.vertices.contains_key(key.outbound_id) && self.vertices.contains_key(key.inbound_id)
    }

    /// Whether what a scope names exists: the vertex of a vertex scope, the
    /// edge of an edge scope. The other scopes name nothing that could be
    /// missing.
    pub open spec fn scope_exists(self, scope: ScopeView) -> bool {
        match scope {
            ScopeView::Vertex { id } => self.vertices.contains_key(id),
            ScopeView::Edge { key } => self.edges.contains_key(key),
            _ => true,
        }
    }

    /// The error that a missing edge is reported with: `VertexNotFound`
    /// where one of its ends is missing, else `EdgeNotFound`.
    pub open spec fn edge_missing(self, key: EdgeKeyView) -> Error {
        if self.has_ends(key) {
            Error::EdgeNotFound
        } else {
            Error::VertexNotFound
        }
    }

    /// The time of the last write of an edge, where the edge exists.
    pub open spec fn stamp_of(self, key: EdgeKeyView) -> Option<u64> {
        if self.edges.contains_key(key) {
            Some(self.edges[key].updated_at)
        } else {
            None
        }
    }

    /// Whether the datastore holds the given edge.
    pub open spec fn holds(self, e: EdgeView) -> bool {
        self.edges.contains_key(e.key) && self.edges[e.key] == data_of(e)
    }
}

/// The identities of the edges that start or end at a vertex.
pub open spec fn incident_keys(id: u128) -> Set<EdgeKeyView> {
    Set::new(|key: EdgeKeyView| incident(key, id))
}

/// The time that a write at `now` stamps on an edge last written at
/// `previous`: the time of the write, but later than the previous stamp by
/// at least the smallest step, as long as the stamp can grow.
pub open spec fn next_stamp(previous: Option<u64>, now: u64) -> u64 {
    match previous {
        Some(p) => if p < now {
            now
        } else if p < u64::MAX {
            (p + 1) as u64
        } else {
            p
        },
        None => now,
    }
}

/// Taking out of the edge map's vector the edges of a set of identities
/// takes those identities out of the map, and leaves the vector in order.
pub proof fn lemma_select_map(s: Seq<EdgeView>, f: EdgeFilterView, gone: Set<EdgeKeyView>)
    requires
        sorted(IndexKind::Primary, s),
        forall|e: EdgeView| f.accepts(e) <==> gone.contains(e.key),
    ensures
        sorted(IndexKind::Primary, select(s, f, false)),
        edge_map(select(s, f, false)) == edge_map(s).remove_keys(gone),
{
    let kept = select(s, f, false);
    lemma_select_sorted(IndexKind::Primary, s, f, false);
    lemma_select_contains(s, f, false);
    lemma_primary_sorted_distinct(s);
    lemma_primary_sorted_distinct(kept);
    lemma_edge_map_holds(s);
    let m = edge_map(s).remove_keys(gone);
    assert forall|e: EdgeView|
        (m.contains_key(e.key) && m[e.key] == data_of(e)) <==> #[trigger] kept.contains(e) by {
        assert(select(s, f, false).contains(e) <==> s.contains(e) && f.accepts(e) == false);
    }
    lemma_edge_map_is(kept, m);
}

/// The type tag that a query names, as plain values.
pub open spec fn tag_view(t: Option<Type>) -> Option<Seq<u8>> {
    match t {
        Some(tag) => Some(tag@),
        None => None,
    }
}

/// The condition of a range query: the edges whose end on the given side is
/// `anchor`, of the type `t` where one is given, last written at or before
/// `high` and after `low` where these are given.
pub open spec fn anchored(
    side: IndexKind,
    anchor: u128,
    t: Option<Seq<u8>>,
    high: Option<u64>,
    low: Option<u64>,
) -> EdgeFilterView {
    EdgeFilterView::Anchored { side, anchor, t, high, low }
}

/// An in-memory graph datastore.
pub struct MemoryDatastore {
    vertices: Vec<Vertex>,
    edges: Vec<Edge>,
    outbound: Vec<Edge>,
    inbound: Vec<Edge>,
    metadata: Vec<MetadataEntry>,
}

impl View for MemoryDatastore {
    type V = DatastoreView;

    closed spec fn view(&self) -> DatastoreView {
        DatastoreView {
            vertices: vertex_map(vertex_views(self.vertices@)),
            edges: edge_map(edge_views(self.edges@)),
            metadata: metadata_map(entry_views(self.metadata@)),
        }
    }
}

impl MemoryDatastore {
    /// The vertices in ascending order of identifier.
    pub closed spec fn vertex_index(&self) -> Seq<VertexView> {
        vertex_views(self.vertices@)
    }

    /// The edges in the order of the outbound index.
    pub closed spec fn outbound_index(&self) -> Seq<EdgeView> {
        edge_views(self.outbound@)
    }

    /// The edges in the order of the inbound index.
    pub closed spec fn inbound_index(&self) -> Seq<EdgeView> {
        edge_views(self.inbound@)
    }

    /// The invariant of the datastore: each structure is in its order, the
    /// two indexes hold the edges of the edge map and no others, every edge
    /// joins two vertices that exist, and every piece of metadata is kept
    /// under a key of its own, in a scope that exists.
    pub closed spec fn wf(&self) -> bool {
        &&& ascending(vertex_views(self.vertices@))
        &&& sorted(IndexKind::Primary, edge_views(self.edges@))
        &&& sorted(IndexKind::Outbound, edge_views(self.outbound@))
        &&& sorted(IndexKind::Inbound, edge_views(self.inbound@))
        &&& same_edges(edge_views(self.edges@), edge_views(self.outbound@))
        &&& same_edges(edge_views(self.edges@), edge_views(self.inbound@))
        &&& forall|e: EdgeView| #[trigger]
            edge_views(self.edges@).contains(e) ==> self@.has_ends(e.key)
        &&& keys_distinct(entry_views(self.metadata@))
        &&& forall|x: EntryView| #[trigger]
            entry_views(self.metadata@).contains(x) ==> self@.scope_exists(x.key.scope)
    }

    /// Every piece of metadata is kept in a scope that exists.
    pub proof fn lemma_metadata_scopes_exist(&self)
        requires
            self.wf(),
        ensures
            forall|key: MetadataKeyView| #[trigger]
                self@.metadata.contains_key(key) ==> self@.scope_exists(key.scope),
    {
        let s = entry_views(self.metadata@);
        assert forall|key: MetadataKeyView| #[trigger]
            self@.metadata.contains_key(key) implies self@.scope_exists(key.scope) by {
            let i = choose|i: int| 0 <= i < s.len() && (#[trigger] s[i]).key == key;
            assert(s.contains(s[i]));
        }
    }

    /// The vertex index is ascending and holds exactly the vertices of the
    /// vertex map.
    pub proof fn lemma_vertex_index(&self)
        requires
            self.wf(),
        ensures
            ascending(self.vertex_index()),
            forall|id: u128, t: Seq<u8>|
                (self@.vertices.contains_key(id) && self@.vertices[id] == t)
                    <==> #[trigger] self.vertex_index().contains(VertexView { id, t }),
    {
        lemma_vertex_map_holds(vertex_views(self.vertices@));
    }

    /// The outbound index is in its order and holds exactly the edges of the
    /// edge map.
    pub proof fn lemma_outbound_index(&self)
        requires
            self.wf(),
        ensures
            sorted(IndexKind::Outbound, self.outbound_index()),
            forall|e: EdgeView| self@.holds(e) <==> #[trigger] self.outbound_index().contains(e),
    {
        lemma_primary_sorted_distinct(edge_views(self.edges@));
        lemma_edge_map_holds(edge_views(self.edges@));
        assert forall|e: EdgeView| self@.holds(e) <==> #[trigger] self.outbound_index().contains(
            e,
        ) by {
            assert(edge_views(self.edges@).contains(e) <==> edge_views(self.outbound@).contains(e));
        }
    }

    /// The inbound index is in its order and holds exactly the edges of the
    /// edge map.
    pub proof fn lemma_inbound_index(&self)
        requires
            self.wf(),
        ensures
            sorted(IndexKind::Inbound, self.inbound_index()),
            forall|e: EdgeView| self@.holds(e) <==> #[trigger] self.inbound_index().contains(e),
    {
        lemma_primary_sorted_distinct(edge_views(self.edges@));
        lemma_edge_map_holds(edge_views(self.edges@));
        assert forall|e: EdgeView| self@.holds(e) <==> #[trigger] self.inbound_index().contains(
            e,
        ) by {
            assert(edge_views(self.edges@).contains(e) <==> edge_views(self.inbound@).contains(e));
        }
    }

    /// Every edge of the datastore joins two of its vertices.
    pub proof fn lemma_edges_have_ends(&self)
        requires
            self.wf(),
        ensures
            forall|key: EdgeKeyView| #[trigger]
                self@.edges.contains_key(key) ==> self@.has_ends(key),
    {
        let s = edge_views(self.edges@);
        assert forall|key: EdgeKeyView| #[trigger]
            self@.edges.contains_key(key) implies self@.has_ends(key) by {
            let i = choose|i: int| 0 <= i < s.len() && (#[trigger] s[i]).key == key;
            assert(s.contains(s[i]));
        }
    }

    /// An empty datastore.
    pub fn new() -> (store: MemoryDatastore)
        ensures
            store.wf(),
            store@.vertices == Map::<u128, Seq<u8>>::empty(),
            store@.edges == Map::<EdgeKeyView, EdgeData>::empty(),
            store@.metadata == Map::<MetadataKeyView, JsonValue>::empty(),
    {
        let store = MemoryDatastore {
            vertices: Vec::new(),
            edges: Vec::new(),
            outbound: Vec::new(),
            inbound: Vec::new(),
            metadata: Vec::new(),
        };
        assert(store@.vertices =~= Map::<u128, Seq<u8>>::empty());
        assert(store@.edges =~= Map::<EdgeKeyView, EdgeData>::empty());
        assert(store@.metadata =~= Map::<MetadataKeyView, JsonValue>::empty());
        store
    }

    /// Tells whether a vertex exists.
    pub fn has_vertex(&self, id: u128) -> (found: bool)
        requires
            self.wf(),
        ensures
            found == self@.vertices.contains_key(id),
    {
        find_vertex(&self.vertices, id).is_some()
    }

    /// Looks a vertex up by its identifier. Fails with `VertexNotFound`
    /// where there is none.
    pub fn get_vertex(&self, id: u128) -> (found: Result<Vertex, Error>)
        requires
            self.wf(),
        ensures
            found is Ok <==> self@.vertices.contains_key(id),
            found is Ok ==> found->Ok_0@ == (VertexView { id, t: self@.vertices[id] }),
            found is Err ==> found->Err_0 == Error::VertexNotFound,
    {
        match find_vertex(&self.vertices, id) {
            Some(at) => Ok(self.vertices[at].duplicate()),
            None => Err(Error::VertexNotFound),
        }
    }

    /// Sets the type tag of the vertex `id`, creating the vertex where it
    /// does not exist. The edges stay as they are.
    pub fn set_vertex(&mut self, id: u128, t: Type)
        requires
            old(self).wf(),
        ensures
            final(self).wf(),
            final(self)@.vertices == old(self)@.vertices.insert(id, t@),
            final(self)@.edges == old(self)@.edges,
            final(self)@.metadata == old(self)@.metadata,
            final(self).outbound_index() == old(self).outbound_index(),
            final(self).inbound_index() == old(self).inbound_index(),
    {
        put_vertex(&mut self.vertices, id, t);
        proof {
            assert forall|e: EdgeView| #[trigger]
                edge_views(self.edges@).contains(e) implies self@.has_ends(e.key) by {
                assert(old(self)@.has_ends(e.key));
            }
            assert forall|x: EntryView| #[trigger]
                entry_views(self.metadata@).contains(x) implies self@.scope_exists(
                x.key.scope,
            ) by {
                assert(old(self)@.scope_exists(x.key.scope));
            }
        }
    }

    /// Puts a vertex with a given identifier into the datastore. Fails with
    /// `UuidTaken`, and changes nothing, where the identifier is in use.
    pub fn insert_vertex(&mut self, id: u128, t: Type) -> (done: Result<(), Error>)
        requires
            old(self).wf(),
        ensures
            final(self).wf(),
            done is Err <==> old(self)@.vertices.contains_key(id),
            done is Err ==> done->Err_0 == Error::UuidTaken && final(self)@ == old(self)@,
            done is Ok ==> final(self)@.vertices == old(self)@.vertices.insert(id, t@),
            final(self)@.edges == old(self)@.edges,
            final(self)@.metadata == old(self)@.metadata,
            final(self).outbound_index() == old(self).outbound_index(),
            final(self).inbound_index() == old(self).inbound_index(),
    {
        if find_vertex(&self.vertices, id).is_some() {
            return Err(Error::UuidTaken);
        }
        self.set_vertex(id, t);
        Ok(())
    }

    /// Looks an edge up by its identity. Fails with `VertexNotFound` where
    /// one of its ends does not exist, and with `EdgeNotFound` where both do
    /// and no such edge joins them.
    pub fn get_edge(&self, key: &EdgeKey) -> (found: Result<Edge, Error>)
        requires
            self.wf(),
        ensures
            found is Ok <==> self@.edges.contains_key(key@),
            found is Ok ==> found->Ok_0@ == edge_of(key@, self@.edges[key@]),
            found is Err ==> found->Err_0 == self@.edge_missing(key@),
    {
        proof {
            self.lemma_edges_have_ends();
            lemma_primary_sorted_distinct(edge_views(self.edges@));
            lemma_edge_map_holds(edge_views(self.edges@));
        }
        if !self.has_vertex(key.outbound_id) || !self.has_vertex(key.inbound_id) {
            return Err(Error::VertexNotFound);
        }
        match find_edge(&self.edges, key) {
            Some(at) => {
                let e = self.edges[at].duplicate();
                proof {
                    let s = edge_views(self.edges@);
                    assert(s[at as int] == self.edges@[at as int]@);
                    assert(s.contains(s[at as int]));
                }
                Ok(e)
            },
            None => Err(Error::EdgeNotFound),
        }
    }

    /// Writes an edge at the time `now`: sets its weight and stamps it with
    /// `next_stamp` of its previous stamp and `now`, creating the edge where
    /// it does not exist. Fails with `VertexNotFound`, and changes nothing,
    /// unless both ends exist.
    pub fn set_edge_at(&mut self, key: EdgeKey, weight: Weight, now: u64) -> (done: Result<
        (),
        Error,
    >)
        requires
            old(self).wf(),
        ensures
            final(self).wf(),
            final(self)@.vertices == old(self)@.vertices,
            final(self)@.metadata == old(self)@.metadata,
            done is Ok <==> old(self)@.has_ends(key@),
            done is Ok ==> final(self)@.edges == old(self)@.edges.insert(
                key@,
                EdgeData {
                    weight: weight@,
                    updated_at: next_stamp(old(self)@.stamp_of(key@), now),
                },
            ),
            done is Err ==> done->Err_0 == Error::VertexNotFound && final(self)@ == old(self)@
                && final(self).outbound_index() == old(self).outbound_index()
                && final(self).inbound_index() == old(self).inbound_index(),
    {
        if !self.has_vertex(key.outbound_id) || !self.has_vertex(key.inbound_id) {
            return Err(Error::VertexNotFound);
        }
        let ghost e0 = edge_views(self.edges@);
        let ghost o0 = edge_views(self.outbound@);
        let ghost i0 = edge_views(self.inbound@);
        proof {
            lemma_primary_sorted_distinct(e0);
            lemma_edge_map_holds(e0);
        }
        let previous = match find_edge(&self.edges, &key) {
            Some(at) => {
                proof {
                    assert(e0[at as int] == self.edges@[at as int]@);
                    assert(e0.contains(e0[at as int]));
                }
                Some(self.edges[at].updated_at)
            },
            None => None,
        };
        let stamp: u64 = match previous {
            Some(p) => if p < now {
                now
            } else if p < u64::MAX {
                p + 1
            } else {
                p
            },
            None => now,
        };
        let filter = EdgeFilter::Identity { key: key.duplicate() };
        let mut edges = retain(&self.edges, &filter, false);
        let mut outbound = retain(&self.outbound, &filter, false);
        let mut inbound = retain(&self.inbound, &filter, false);
        let ghost added = EdgeView { key: key@, weight: weight@, updated_at: stamp };
        let ghost e1 = edge_views(edges@);
        let ghost o1 = edge_views(outbound@);
        let ghost i1 = edge_views(inbound@);
        proof {
            lemma_select_map(e0, filter@, set![key@]);
            lemma_select_sorted(IndexKind::Outbound, o0, filter@, false);
            lemma_select_sorted(IndexKind::Inbound, i0, filter@, false);
            lemma_select_contains(e0, filter@, false);
            lemma_select_contains(o0, filter@, false);
            lemma_select_contains(i0, filter@, false);
            assert forall|i: int| 0 <= i < e1.len() implies crate::index::sort_key(
                IndexKind::Primary,
                #[trigger] e1[i],
            ) != crate::index::sort_key(IndexKind::Primary, added) by {
                assert(e1.contains(e1[i]));
            }
            assert forall|i: int| 0 <= i < o1.len() implies crate::index::sort_key(
                IndexKind::Outbound,
                #[trigger] o1[i],
            ) != crate::index::sort_key(IndexKind::Outbound, added) by {
                assert(o1.contains(o1[i]));
            }
            assert forall|i: int| 0 <= i < i1.len() implies crate::index::sort_key(
                IndexKind::Inbound,
                #[trigger] i1[i],
            ) != crate::index::sort_key(IndexKind::Inbound, added) by {
                assert(i1.contains(i1[i]));
            }
        }
        insert_sorted(&mut edges, IndexKind::Primary, Edge::new(key.duplicate(), weight, stamp));
        insert_sorted(&mut outbound, IndexKind::Outbound, Edge::new(key.duplicate(), weight, stamp));
        insert_sorted(&mut inbound, IndexKind::Inbound, Edge::new(key, weight, stamp));
        self.edges = edges;
        self.outbound = outbound;
        self.inbound = inbound;
        proof {
            let e2 = edge_views(self.edges@);
            let o2 = edge_views(self.outbound@);
            let i2 = edge_views(self.inbound@);
            assert forall|x: EdgeView| e2.contains(x) <==> o2.contains(x) by {
                assert(e1.contains(x) <==> e0.contains(x) && filter@.accepts(x) == false);
                assert(o1.contains(x) <==> o0.contains(x) && filter@.accepts(x) == false);
                assert(e0.contains(x) <==> o0.contains(x));
            }
            assert forall|x: EdgeView| e2.contains(x) <==> i2.contains(x) by {
                assert(e1.contains(x) <==> e0.contains(x) && filter@.accepts(x) == false);
                assert(i1.contains(x) <==> i0.contains(x) && filter@.accepts(x) == false);
                assert(e0.contains(x) <==> i0.contains(x));
            }
            lemma_primary_sorted_distinct(e2);
            let m = old(self)@.edges.insert(key@, data_of(added));
            assert forall|x: EdgeView|
                (m.contains_key(x.key) && m[x.key] == data_of(x)) <==> #[trigger] e2.contains(
                    x,
                ) by {
                assert(e1.contains(x) <==> e0.contains(x) && filter@.accepts(x) == false);
                assert(e2.contains(x) <==> e1.contains(x) || x == added);
            }
            lemma_edge_map_is(e2, m);
            assert forall|x: EdgeView| #[trigger] e2.contains(x) implies self@.has_ends(x.key) by {
                assert(e1.contains(x) <==> e0.contains(x) && filter@.accepts(x) == false);
                assert(e2.contains(x) <==> e1.contains(x) || x == added);
            }
            assert forall|x: EntryView| #[trigger]
                entry_views(self.metadata@).contains(x) implies self@.scope_exists(
                x.key.scope,
            ) by {
                assert(old(self)@.scope_exists(x.key.scope));
            }
        }
        Ok(())
    }

    /// Removes an edge, where it exists, and with it the metadata kept in
    /// its scope. The vertices stay as they are.
    pub fn delete_edge(&mut self, key: &EdgeKey)
        requires
            old(self).wf(),
        ensures
            final(self).wf(),
            final(self)@.vertices == old(self)@.vertices,
            final(self)@.edges == old(self)@.edges.remove(key@),
            final(self)@.metadata == old(self)@.metadata.remove_keys(
                (EntryFilterView::OfEdge { key: key@ }).keys(),
            ),
    {
        let filter = EdgeFilter::Identity { key: key.duplicate() };
        let entries = EntryFilter::OfEdge { key: key.duplicate() };
        let ghost gone = set![key@];
        self.drop_edges(&filter, &entries, Ghost(gone));
        proof {
            assert(old(self)@.edges.remove_keys(set![key@]) =~= old(self)@.edges.remove(key@));
        }
    }

    /// Removes a vertex, where it exists, and with it every edge that starts
    /// or ends at it, and the metadata kept in the scope of the vertex or of
    /// one of those edges.
    pub fn delete_vertex(&mut self, id: u128)
        requires
            old(self).wf(),
        ensures
            final(self).wf(),
            final(self)@.vertices == old(self)@.vertices.remove(id),
            final(self)@.edges == old(self)@.edges.remove_keys(incident_keys(id)),
            final(self)@.metadata == old(self)@.metadata.remove_keys(
                (EntryFilterView::OfVertex { id }).keys(),
            ),
    {
        let filter = EdgeFilter::Incident { id };
        let entries = EntryFilter::OfVertex { id };
        let ghost gone = incident_keys(id);
        self.drop_edges(&filter, &entries, Ghost(gone));
        let ghost middle = self@;
        remove_vertex(&mut self.vertices, id);
        proof {
            let kept = edge_views(self.edges@);
            lemma_primary_sorted_distinct(kept);
            lemma_edge_map_holds(kept);
            assert forall|e: EdgeView| #[trigger] kept.contains(e) implies self@.has_ends(
                e.key,
            ) by {
                assert(self@.edges.contains_key(e.key));
                assert(!incident_keys(id).contains(e.key));
                assert(middle.has_ends(e.key));
            }
            let left = entry_views(self.metadata@);
            lemma_metadata_map_holds(left);
            assert forall|x: EntryView| #[trigger] left.contains(x) implies self@.scope_exists(
                x.key.scope,
            ) by {
                assert(middle.scope_exists(x.key.scope));
                assert(self@.metadata.contains_key(x.key));
                assert(!entries@.keys().contains(x.key));
            }
        }
    }

    /// Takes out of the edge map and of both indexes the edges that meet a
    /// condition on their identity, and out of the metadata the entries of
    /// the chosen keys, which include the scopes of those edges.
    fn drop_edges(
        &mut self,
        filter: &EdgeFilter,
        entries: &EntryFilter,
        Ghost(gone): Ghost<Set<EdgeKeyView>>,
    )
        requires
            old(self).wf(),
            forall|e: EdgeView| filter@.accepts(e) <==> gone.contains(e.key),
            forall|key: EdgeKeyView, name: Seq<u8>|
                gone.contains(key) ==> #[trigger] entries@.accepts(
                    MetadataKeyView { scope: ScopeView::Edge { key }, name },
                ),
        ensures
            final(self).wf(),
            final(self)@.vertices == old(self)@.vertices,
            final(self)@.edges == old(self)@.edges.remove_keys(gone),
            final(self)@.metadata == old(self)@.metadata.remove_keys(entries@.keys()),
            final(self).outbound_index() == select(old(self).outbound_index(), filter@, false),
            final(self).inbound_index() == select(old(self).inbound_index(), filter@, false),
    {
        let ghost e0 = edge_views(self.edges@);
        let ghost o0 = edge_views(self.outbound@);
        let ghost i0 = edge_views(self.inbound@);
        let ghost m0 = entry_views(self.metadata@);
        let edges = retain(&self.edges, filter, false);
        let outbound = retain(&self.outbound, filter, false);
        let inbound = retain(&self.inbound, filter, false);
        let metadata = without_entries(&self.metadata, entries);
        self.edges = edges;
        self.outbound = outbound;
        self.inbound = inbound;
        self.metadata = metadata;
        proof {
            lemma_select_map(e0, filter@, gone);
            lemma_select_sorted(IndexKind::Outbound, o0, filter@, false);
            lemma_select_sorted(IndexKind::Inbound, i0, filter@, false);
            lemma_select_contains(e0, filter@, false);
            lemma_select_contains(o0, filter@, false);
            lemma_select_contains(i0, filter@, false);
            lemma_spared_map(m0, entries@);
            let e1 = edge_views(self.edges@);
            let o1 = edge_views(self.outbound@);
            let i1 = edge_views(self.inbound@);
            let m1 = entry_views(self.metadata@);
            assert forall|x: EdgeView| e1.contains(x) <==> o1.contains(x) by {
                assert(e1.contains(x) <==> e0.contains(x) && filter@.accepts(x) == false);
                assert(o1.contains(x) <==> o0.contains(x) && filter@.accepts(x) == false);
                assert(e0.contains(x) <==> o0.contains(x));
            }
            assert forall|x: EdgeView| e1.contains(x) <==> i1.contains(x) by {
                assert(e1.contains(x) <==> e0.contains(x) && filter@.accepts(x) == false);
                assert(i1.contains(x) <==> i0.contains(x) && filter@.accepts(x) == false);
                assert(e0.contains(x) <==> i0.contains(x));
            }
            assert forall|x: EdgeView| #[trigger] e1.contains(x) implies self@.has_ends(x.key) by {
                assert(e1.contains(x) <==> e0.contains(x) && filter@.accepts(x) == false);
            }
            assert forall|x: EntryView| #[trigger] m1.contains(x) implies self@.scope_exists(
                x.key.scope,
            ) by {
                assert(m0.contains(x) && !entries@.accepts(x.key));
                assert(old(self)@.scope_exists(x.key.scope));
                match x.key.scope {
                    ScopeView::Edge { key } => {
                        assert(x.key == MetadataKeyView {
                            scope: ScopeView::Edge { key },
                            name: x.key.name,
                        });
                        assert(!gone.contains(key));
                    },
                    _ => {},
                }
            }
        }
    }

    /// Reads the metadata kept under a scope and a name. Fails with
    /// `MetadataNotFound` where nothing is kept there.
    pub fn get_metadata(&self, scope: &Scope, name: &Type) -> (found: Result<JsonValue, Error>)
        requires
            self.wf(),
        ensures
            found is Ok <==> self@.metadata.contains_key(
                MetadataKeyView { scope: scope@, name: name@ },
            ),
            found is Ok ==> found->Ok_0 == self@.metadata[MetadataKeyView {
                scope: scope@,
                name: name@,
            }],
            found is Err ==> found->Err_0 == Error::MetadataNotFound,
    {
        proof {
            lemma_metadata_map_holds(entry_views(self.metadata@));
        }
        match find_entry(&self.metadata, scope, name) {
            Some(at) => {
                proof {
                    let s = entry_views(self.metadata@);
                    assert(s[at as int] == self.metadata@[at as int]@);
                    assert(s.contains(s[at as int]));
                }
                Ok(clone_json_value(&self.metadata[at]))
            },
            None => Err(Error::MetadataNotFound),
        }
    }

    /// Keeps a value under a scope and a name, in place of the value kept
    /// there before, if there was one. Fails, and changes nothing, where the
    /// scope names a vertex or an edge that does not exist: with
    /// `VertexNotFound` for a vertex, and for an edge as `get_edge` does.
    pub fn set_metadata(&mut self, scope: Scope, name: Type, value: JsonValue) -> (done: Result<
        (),
        Error,
    >)
        requires
            old(self).wf(),
        ensures
            final(self).wf(),
            final(self)@.vertices == old(self)@.vertices,
            final(self)@.edges == old(self)@.edges,
            done is Ok <==> old(self)@.scope_exists(scope@),
            done is Ok ==> final(self)@.metadata == old(self)@.metadata.insert(
                MetadataKeyView { scope: scope@, name: name@ },
                value,
            ),
            done is Err ==> final(self)@ == old(self)@ && done->Err_0 == (match scope@ {
                ScopeView::Edge { key } => old(self)@.edge_missing(key),
                _ => Error::VertexNotFound,
            }),
    {
        match &scope {
            Scope::Vertex { id } => {
                if !self.has_vertex(*id) {
                    return Err(Error::VertexNotFound);
                }
            },
            Scope::Edge { key } => {
                match self.get_edge(key) {
                    Ok(_) => {},
                    Err(e) => {
                        return Err(e);
                    },
                }
            },
            _ => {},
        }
        let ghost key = MetadataKeyView { scope: scope@, name: name@ };
        put_entry(&mut self.metadata, scope, name, value);
        proof {
            let after = entry_views(self.metadata@);
            lemma_metadata_map_holds(after);
            old(self).lemma_metadata_scopes_exist();
            assert forall|x: EntryView| #[trigger] after.contains(x) implies self@.scope_exists(
                x.key.scope,
            ) by {
                assert(self@.metadata.contains_key(x.key));
                if x.key != key {
                    assert(old(self)@.metadata.contains_key(x.key));
                }
            }
        }
        Ok(())
    }

    /// Removes the metadata kept under a scope and a name, where there is
    /// any.
    pub fn delete_metadata(&mut self, scope: &Scope, name: &Type)
        requires
            old(self).wf(),
        ensures
            final(self).wf(),
            final(self)@.vertices == old(self)@.vertices,
            final(self)@.edges == old(self)@.edges,
            final(self)@.metadata == old(self)@.metadata.remove(
                MetadataKeyView { scope: scope@, name: name@ },
            ),
    {
        let filter = EntryFilter::Entry { scope: scope.duplicate(), name: name.duplicate() };
        let ghost m0 = entry_views(self.metadata@);
        let kept = without_entries(&self.metadata, &filter);
        self.metadata = kept;
        proof {
            lemma_spared_map(m0, filter@);
            let key = MetadataKeyView { scope: scope@, name: name@ };
            assert(old(self)@.metadata.remove_keys(filter@.keys()) =~= old(self)@.metadata.remove(
                key,
            ));
            assert forall|x: EntryView| #[trigger]
                entry_views(self.metadata@).contains(x) implies self@.scope_exists(
                x.key.scope,
            ) by {
                assert(m0.contains(x));
                assert(old(self)@.scope_exists(x.key.scope));
            }
        }
    }

    /// The vertices from `start_id` on: in ascending order of identifier,
    /// the first `limit` vertices whose identifier is not below `start_id`.
    pub fn get_vertex_range(&self, start_id: u128, limit: u16) -> (found: Vec<Vertex>)
        requires
            self.wf(),
        ensures
            vertex_views(found@) == vertex_page(self.vertex_index(), start_id, limit as int),
    {
        range_from(&self.vertices, start_id, limit)
    }

    /// Creates a vertex with a freshly generated identifier, and returns the
    /// identifier. Fails with `UuidTaken`, and changes nothing, where the
    /// generator hands out an identifier that is in use, and only there: so
    /// it succeeds wherever no identifier that can be drawn is in use, as
    /// in an empty datastore.
    pub fn create_vertex(&mut self, t: Type) -> (made: Result<u128, Error>)
        requires
            old(self).wf(),
        ensures
            final(self).wf(),
            final(self)@.edges == old(self)@.edges,
            final(self)@.metadata == old(self)@.metadata,
            made matches Ok(id) ==> is_random_value(id) && !old(self)@.vertices.contains_key(id)
                && final(self)@.vertices == old(self)@.vertices.insert(id, t@),
            made matches Err(e) ==> e == Error::UuidTaken && final(self)@ == old(self)@,
            made is Err ==> exists|id: u128|
                is_random_value(id) && #[trigger] old(self)@.vertices.contains_key(id),
    {
        let drawn = generate_uuid_v1();
        let id = uuid_to_u128(&drawn);
        assert(is_random_value(id)) by {
            assert(is_random_layout(uuid_bytes(drawn)) && uuid_value(drawn) == id);
        }
        match self.insert_vertex(id, t) {
            Ok(()) => Ok(id),
            Err(e) => {
                assert(is_random_value(id) && old(self)@.vertices.contains_key(id));
                Err(e)
            },
        }
    }

    /// Writes an edge at the current time of the system clock: sets its
    /// weight and stamps it, creating the edge where it does not exist. The
    /// stamp is `next_stamp` of the edge's previous stamp and some time, so
    /// it never falls behind the previous one. Fails with `VertexNotFound`,
    /// and changes nothing, unless both ends exist.
    pub fn set_edge(&mut self, key: EdgeKey, weight: Weight) -> (done: Result<(), Error>)
        requires
            old(self).wf(),
        ensures
            final(self).wf(),
            final(self)@.vertices == old(self)@.vertices,
            final(self)@.metadata == old(self)@.metadata,
            done is Ok <==> old(self)@.has_ends(key@),
            done is Ok ==> exists|now: u64|
                final(self)@.edges == old(self)@.edges.insert(
                    key@,
                    EdgeData {
                        weight: weight@,
                        updated_at: #[trigger] next_stamp(old(self)@.stamp_of(key@), now),
                    },
                ),
            done is Err ==> done->Err_0 == Error::VertexNotFound && final(self)@ == old(self)@,
    {
        let now = clock_nanos(&wall_clock());
        self.set_edge_at(key, weight, now)
    }

    /// Counts the edges that start at `outbound_id`; where `t` is given,
    /// those of that type only.
    pub fn get_edge_count(&self, outbound_id: u128, t: Option<Type>) -> (count: u64)
        requires
            self.wf(),
        ensures
            count == select(
                self.outbound_index(),
                anchored(IndexKind::Outbound, outbound_id, tag_view(t), None, None),
                true,
            ).len(),
    {
        count_in(&self.outbound, IndexKind::Outbound, outbound_id, t)
    }

    /// The edges that start at `outbound_id`, newest first and, among edges
    /// of one time, in ascending order of the inbound end; where `t` is
    /// given, those of that type only, and otherwise type by type. Of these
    /// the first `offset` are passed over and up to `limit` returned.
    pub fn get_edge_range(&self, outbound_id: u128, t: Option<Type>, offset: u64, limit: u16) -> (found:
        Vec<Edge>)
        requires
            self.wf(),
        ensures
            edge_views(found@) == page(
                select(
                    self.outbound_index(),
                    anchored(IndexKind::Outbound, outbound_id, tag_view(t), None, None),
                    true,
                ),
                offset as int,
                limit as int,
            ),
    {
        range_of(&self.outbound, IndexKind::Outbound, outbound_id, t, None, None, offset, limit)
    }

    /// The edges that start at `outbound_id` and were last written after
    /// `low` and at or before `high`, a bound that is not given being no
    /// bound; in the order of `get_edge_range`, up to `limit` of them.
    pub fn get_edge_time_range(
        &self,
        outbound_id: u128,
        t: Option<Type>,
        high: Option<u64>,
        low: Option<u64>,
        limit: u16,
    ) -> (found: Vec<Edge>)
        requires
            self.wf(),
        ensures
            edge_views(found@) == page(
                select(
                    self.outbound_index(),
                    anchored(IndexKind::Outbound, outbound_id, tag_view(t), high, low),
                    true,
                ),
                0,
                limit as int,
            ),
    {
        range_of(&self.outbound, IndexKind::Outbound, outbound_id, t, high, low, 0, limit)
    }

    /// Counts the edges that end at `inbound_id`; where `t` is given, those
    /// of that type only.
    pub fn get_reversed_edge_count(&self, inbound_id: u128, t: Option<Type>) -> (count: u64)
        requires
            self.wf(),
        ensures
            count == select(
                self.inbound_index(),
                anchored(IndexKind::Inbound, inbound_id, tag_view(t), None, None),
                true,
            ).len(),
    {
        count_in(&self.inbound, IndexKind::Inbound, inbound_id, t)
    }

    /// The edges that end at `inbound_id`, newest first and, among edges of
    /// one time, in ascending order of the outbound end; where `t` is given,
    /// those of that type only, and otherwise type by type. Of these the
    /// first `offset` are passed over and up to `limit` returned.
    pub fn get_reversed_edge_range(
        &self,
        inbound_id: u128,
        t: Option<Type>,
        offset: u64,
        limit: u16,
    ) -> (found: Vec<Edge>)
        requires
            self.wf(),
        ensures
            edge_views(found@) == page(
                select(
                    self.inbound_index(),
                    anchored(IndexKind::Inbound, inbound_id, tag_view(t), None, None),
                    true,
                ),
                offset as int,
                limit as int,
            ),
    {
        range_of(&self.inbound, IndexKind::Inbound, inbound_id, t, None, None, offset, limit)
    }

    /// The edges that end at `inbound_id` and were last written after `low`
    /// and at or before `high`, a bound that is not given being no bound; in
    /// the order of `get_reversed_edge_range`, up to `limit` of them.
    pub fn get_reversed_edge_time_range(
        &self,
        inbound_id: u128,
        t: Option<Type>,
        high: Option<u64>,
        low: Option<u64>,
        limit: u16,
    ) -> (found: Vec<Edge>)
        requires
            self.wf(),
        ensures
            edge_views(found@) == page(
                select(
                    self.inbound_index(),
                    anchored(IndexKind::Inbound, inbound_id, tag_view(t), high, low),
                    true,
                ),
                0,
                limit as int,
            ),
    {
        range_of(&self.inbound, IndexKind::Inbound, inbound_id, t, high, low, 0, limit)
    }
}

/// Reads an instant of the clock as nanoseconds since the epoch: zero for
/// an instant before the epoch, and the greatest count for one too far
/// after it to count.
pub fn clock_nanos(instant: &Timestamp) -> (nanos: u64)
    ensures
        instant.in_range() ==> nanos == instant.nanos(),
        !instant.in_range() ==> nanos == if instant.seconds < 0 {
            0
        } else {
            u64::MAX
        },
{
    match checked_nanos_since_epoch(instant) {
        Some(nanos) => nanos,
        None => if instant.seconds < 0 {
            0
        } else {
            u64::MAX
        },
    }
}

} // verus!
