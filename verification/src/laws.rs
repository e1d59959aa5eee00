//! What holds of the datastore across its operations, stated over the
//! values that the operations' contracts speak of.

use crate::index::{
    edge_lt, lemma_select_contains, lemma_select_sorted, lemma_sorted_unique, page, select,
    IndexKind,
};
use crate::memory::{
    anchored, incident_keys, next_stamp, DatastoreView, EdgeData, MemoryDatastore,
};
use crate::errors::Error;
use crate::models::{incident, EdgeKeyView, EdgeView, VertexView};
use crate::transaction::vertex_created;
use crate::util::is_random_value;
use crate::vertices::lemma_ascending_unique;
use vstd::prelude::*;

verus! {

/// A vertex that has been created or set is found under its identifier,
/// with the tag it was given; once it is deleted it is no longer found.
pub proof fn lemma_vertex_found_until_deleted(
    before: DatastoreView,
    created: DatastoreView,
    deleted: DatastoreView,
    id: u128,
    t: Seq<u8>,
)
    requires
        created.vertices == before.vertices.insert(id, t),
        deleted.vertices == created.vertices.remove(id),
    ensures
        created.vertices.contains_key(id),
        created.vertices[id] == t,
        !deleted.vertices.contains_key(id),
{
}

/// Creating a vertex fails only on an identifier that is in use: where no
/// identifier that can be drawn is in use, as in a datastore without
/// vertices, it succeeds, and the vertex is then found under the identifier
/// returned, with the tag it was given.
pub proof fn lemma_creation_succeeds_where_nothing_is_in_use(
    before: MemoryDatastore,
    t: Seq<u8>,
    after: MemoryDatastore,
    made: Result<u128, Error>,
)
    requires
        vertex_created(before, t, after, made),
        forall|id: u128| is_random_value(id) ==> !#[trigger] before@.vertices.contains_key(id),
    ensures
        made is Ok,
        after@.vertices.contains_key(made->Ok_0),
        after@.vertices[made->Ok_0] == t,
{
}

/// An edge that has been written at the time `now` is found under its
/// identity, with the weight it was given and a stamp that is not before
/// `now`.
pub proof fn lemma_written_edge_is_found(
    before: DatastoreView,
    after: DatastoreView,
    key: EdgeKeyView,
    weight: u32,
    now: u64,
)
    requires
        after.edges == before.edges.insert(
            key,
            EdgeData { weight, updated_at: next_stamp(before.stamp_of(key), now) },
        ),
    ensures
        after.edges.contains_key(key),
        after.edges[key].weight == weight,
        after.edges[key].updated_at >= now,
{
}

/// Writing an edge again never turns its stamp back, whatever the clock
/// shows, and moves it forward as long as the stamp can grow.
pub proof fn lemma_stamps_do_not_fall(
    before: DatastoreView,
    after: DatastoreView,
    key: EdgeKeyView,
    weight: u32,
    now: u64,
)
    requires
        before.edges.contains_key(key),
        after.edges == before.edges.insert(
            key,
            EdgeData { weight, updated_at: next_stamp(before.stamp_of(key), now) },
        ),
    ensures
        after.edges[key].updated_at >= before.edges[key].updated_at,
        before.edges[key].updated_at < u64::MAX ==> after.edges[key].updated_at
            > before.edges[key].updated_at,
{
}

/// Whether `a` is listed before `b` among edges of one anchor and type:
/// it was written later, or at the same time and its other end has the
/// smaller identifier.
pub open spec fn listed_before(side: IndexKind, a: EdgeView, b: EdgeView) -> bool {
    a.updated_at > b.updated_at || (a.updated_at == b.updated_at && other_end(side, a)
        < other_end(side, b))
}

/// The end of an edge that a query on the given side is not anchored on.
pub open spec fn other_end(side: IndexKind, e: EdgeView) -> u128 {
    match side {
        IndexKind::Inbound => e.key.outbound_id,
        _ => e.key.inbound_id,
    }
}

/// A range query without offset, for edges of one type that start at one
/// vertex, returns the most recently written of them, newest first: as many
/// as the limit allows, each an edge of the datastore, and every such edge
/// left out is listed behind all those returned.
pub proof fn lemma_range_holds_the_newest(
    store: &MemoryDatastore,
    outbound_id: u128,
    t: Seq<u8>,
    limit: int,
)
    requires
        store.wf(),
        0 <= limit,
    ensures
        ({
            let all = select(
                store.outbound_index(),
                anchored(IndexKind::Outbound, outbound_id, Some(t), None, None),
                true,
            );
            let got = page(all, 0, limit);
            &&& got.len() == if limit < all.len() {
                limit
            } else {
                all.len() as int
            }
            &&& forall|i: int, j: int|
                0 <= i < j < got.len() ==> listed_before(
                    IndexKind::Outbound,
                    #[trigger] got[i],
                    #[trigger] got[j],
                )
            &&& forall|e: EdgeView| #[trigger]
                got.contains(e) ==> store@.holds(e) && e.key.outbound_id == outbound_id && e.key.t
                    == t
            &&& forall|e: EdgeView, i: int|
                store@.holds(e) && e.key.outbound_id == outbound_id && e.key.t == t
                    && !got.contains(e) && 0 <= i < got.len() ==> #[trigger] listed_before(
                    IndexKind::Outbound,
                    got[i],
                    e,
                )
        }),
{
    let f = anchored(IndexKind::Outbound, outbound_id, Some(t), None, None);
    let index = store.outbound_index();
    let all = select(index, f, true);
    let got = page(all, 0, limit);
    store.lemma_outbound_index();
    lemma_select_sorted(IndexKind::Outbound, index, f, true);
    lemma_select_contains(index, f, true);
    assert forall|i: int| 0 <= i < got.len() implies #[trigger] got[i] == all[i] && f.accepts(
        all[i],
    ) by {
        assert(all.contains(all[i]));
    }
    assert forall|i: int, j: int| 0 <= i < j < got.len() implies listed_before(
        IndexKind::Outbound,
        #[trigger] got[i],
        #[trigger] got[j],
    ) by {
        assert(edge_lt(IndexKind::Outbound, all[i], all[j]));
    }
    assert forall|e: EdgeView| #[trigger] got.contains(e) implies store@.holds(e)
        && e.key.outbound_id == outbound_id && e.key.t == t by {
        let k = choose|k: int| 0 <= k < got.len() && got[k] == e;
        assert(all.contains(all[k]));
    }
    assert forall|e: EdgeView, i: int|
        store@.holds(e) && e.key.outbound_id == outbound_id && e.key.t == t && !got.contains(e)
            && 0 <= i < got.len() implies #[trigger] listed_before(
        IndexKind::Outbound,
        got[i],
        e,
    ) by {
        assert(index.contains(e));
        assert(all.contains(e));
        let k = choose|k: int| 0 <= k < all.len() && all[k] == e;
        if k < got.len() {
            assert(got[k] == e);
        }
        assert(edge_lt(IndexKind::Outbound, all[i], all[k]));
    }
}

/// The count of a query is the length of its range when nothing is passed
/// over and the limit is no smaller than the count: such a range holds all
/// the edges that the query selects.
pub proof fn lemma_count_is_length_of_full_range(selected: Seq<EdgeView>, limit: int)
    requires
        limit >= selected.len(),
    ensures
        page(selected, 0, limit) == selected,
        page(selected, 0, limit).len() == selected.len(),
{
    assert(page(selected, 0, limit) =~= selected);
}

/// Every edge that a query anchored on the outbound end selects is selected
/// by the query of the same type and time bounds anchored on the edge's
/// inbound end, and the other way round.
pub proof fn lemma_reverse_symmetry(
    store: &MemoryDatastore,
    e: EdgeView,
    t: Option<Seq<u8>>,
    high: Option<u64>,
    low: Option<u64>,
)
    requires
        store.wf(),
    ensures
        select(
            store.outbound_index(),
            anchored(IndexKind::Outbound, e.key.outbound_id, t, high, low),
            true,
        ).contains(e) <==> select(
            store.inbound_index(),
            anchored(IndexKind::Inbound, e.key.inbound_id, t, high, low),
            true,
        ).contains(e),
{
    store.lemma_outbound_index();
    store.lemma_inbound_index();
    lemma_select_contains(
        store.outbound_index(),
        anchored(IndexKind::Outbound, e.key.outbound_id, t, high, low),
        true,
    );
    lemma_select_contains(
        store.inbound_index(),
        anchored(IndexKind::Inbound, e.key.inbound_id, t, high, low),
        true,
    );
    assert(store@.holds(e) <==> store.outbound_index().contains(e));
    assert(store@.holds(e) <==> store.inbound_index().contains(e));
}

/// After a vertex is deleted no index holds an edge that starts or ends at
/// it, so no range holds such an edge, and every query anchored on the
/// vertex selects nothing and counts zero.
pub proof fn lemma_deleted_vertex_leaves_no_edges(
    before: DatastoreView,
    after: &MemoryDatastore,
    id: u128,
    t: Option<Seq<u8>>,
    high: Option<u64>,
    low: Option<u64>,
)
    requires
        after.wf(),
        after@.edges == before.edges.remove_keys(incident_keys(id)),
    ensures
        forall|e: EdgeView| #[trigger] after.outbound_index().contains(e) ==> !incident(e.key, id),
        forall|e: EdgeView| #[trigger] after.inbound_index().contains(e) ==> !incident(e.key, id),
        select(after.outbound_index(), anchored(IndexKind::Outbound, id, t, high, low), true).len()
            == 0,
        select(after.inbound_index(), anchored(IndexKind::Inbound, id, t, high, low), true).len()
            == 0,
{
    after.lemma_outbound_index();
    after.lemma_inbound_index();
    assert forall|e: EdgeView| #[trigger] after.outbound_index().contains(e) implies !incident(
        e.key,
        id,
    ) by {
        assert(after@.holds(e));
        assert(!incident_keys(id).contains(e.key));
    }
    assert forall|e: EdgeView| #[trigger] after.inbound_index().contains(e) implies !incident(
        e.key,
        id,
    ) by {
        assert(after@.holds(e));
        assert(!incident_keys(id).contains(e.key));
    }
    let out = select(
        after.outbound_index(),
        anchored(IndexKind::Outbound, id, t, high, low),
        true,
    );
    lemma_select_contains(
        after.outbound_index(),
        anchored(IndexKind::Outbound, id, t, high, low),
        true,
    );
    if out.len() > 0 {
        assert(out.contains(out[0]));
        assert(after.outbound_index().contains(out[0]));
    }
    let inb = select(after.inbound_index(), anchored(IndexKind::Inbound, id, t, high, low), true);
    lemma_select_contains(
        after.inbound_index(),
        anchored(IndexKind::Inbound, id, t, high, low),
        true,
    );
    if inb.len() > 0 {
        assert(inb.contains(inb[0]));
        assert(after.inbound_index().contains(inb[0]));
    }
}

/// The indexes follow from the edge map: two datastores that hold the same
/// edges list them in the same order, in both indexes.
pub proof fn lemma_indexes_follow_from_edges(a: &MemoryDatastore, b: &MemoryDatastore)
    requires
        a.wf(),
        b.wf(),
        a@.edges == b@.edges,
    ensures
        a.outbound_index() == b.outbound_index(),
        a.inbound_index() == b.inbound_index(),
{
    a.lemma_outbound_index();
    b.lemma_outbound_index();
    a.lemma_inbound_index();
    b.lemma_inbound_index();
    assert forall|e: EdgeView| a.outbound_index().contains(e) <==> b.outbound_index().contains(
        e,
    ) by {
        assert(a@.holds(e) <==> b@.holds(e));
    }
    assert forall|e: EdgeView| a.inbound_index().contains(e) <==> b.inbound_index().contains(
        e,
    ) by {
        assert(a@.holds(e) <==> b@.holds(e));
    }
    lemma_sorted_unique(IndexKind::Outbound, a.outbound_index(), b.outbound_index());
    lemma_sorted_unique(IndexKind::Inbound, a.inbound_index(), b.inbound_index());
}

/// The vertex index follows from the vertex map: two datastores that hold
/// the same vertices list them in the same order.
pub proof fn lemma_vertex_index_follows_from_vertices(a: &MemoryDatastore, b: &MemoryDatastore)
    requires
        a.wf(),
        b.wf(),
        a@.vertices == b@.vertices,
    ensures
        a.vertex_index() == b.vertex_index(),
{
    a.lemma_vertex_index();
    b.lemma_vertex_index();
    assert forall|v: VertexView| a.vertex_index().contains(v) <==> b.vertex_index().contains(
        v,
    ) by {
        assert(v == VertexView { id: v.id, t: v.t });
    }
    lemma_ascending_unique(a.vertex_index(), b.vertex_index());
}

/// A query with a limit of zero returns nothing, and so does one that
/// passes over as many edges as are selected, or more.
pub proof fn lemma_empty_pages(selected: Seq<EdgeView>, offset: int, limit: int)
    requires
        0 <= offset,
        0 <= limit,
    ensures
        page(selected, offset, 0).len() == 0,
        offset >= selected.len() ==> page(selected, offset, limit).len() == 0,
        page(selected, offset, limit).len() <= limit,
{
}

/// A time range whose upper bound lies below its lower bound selects
/// nothing.
pub proof fn lemma_inverted_bounds_select_nothing(
    index: Seq<EdgeView>,
    side: IndexKind,
    anchor: u128,
    t: Option<Seq<u8>>,
    high: u64,
    low: u64,
)
    requires
        high < low,
    ensures
        select(index, anchored(side, anchor, t, Some(high), Some(low)), true).len() == 0,
{
    let f = anchored(side, anchor, t, Some(high), Some(low));
    let got = select(index, f, true);
    lemma_select_contains(index, f, true);
    if got.len() > 0 {
        assert(got.contains(got[0]));
        assert(f.accepts(got[0]));
    }
}

} // verus!
