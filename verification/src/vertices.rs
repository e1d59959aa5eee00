//! The vertex map as an ascending vector, and the operations that keep it
//! in order.

use crate::models::{Type, Vertex, VertexView};
use crate::seqs::{lemma_filter_everything, lemma_filter_nothing};
use vstd::prelude::*;

verus! {

/// The plain values of a sequence of vertices.
pub open spec fn vertex_views(s: Seq<Vertex>) -> Seq<VertexView> {
    Seq::new(s.len(), |i: int| s[i]@)
}

/// Whether a sequence of vertices is in strictly ascending order of
/// identifier.
pub open spec fn ascending(s: Seq<VertexView>) -> bool {
    forall|i: int, j: int| 0 <= i < j < s.len() ==> (#[trigger] s[i]).id < (#[trigger] s[j]).id
}

/// The map from identifier to type tag that a sequence of vertices stands
/// for.
pub open spec fn vertex_map(s: Seq<VertexView>) -> Map<u128, Seq<u8>> {
    Map::new(
        |id: u128| exists|i: int| 0 <= i < s.len() && (#[trigger] s[i]).id == id,
        |id: u128| s[choose|i: int| 0 <= i < s.len() && (#[trigger] s[i]).id == id].t,
    )
}

/// In an ascending sequence, the map holds a tag for an identifier exactly
/// when the sequence holds that vertex.
pub proof fn lemma_vertex_map_holds(s: Seq<VertexView>)
    requires
        ascending(s),
    ensures
        forall|id: u128, t: Seq<u8>|
            (vertex_map(s).contains_key(id) && vertex_map(s)[id] == t) <==> #[trigger] s.contains(
                VertexView { id, t },
            ),
{
    assert forall|id: u128, t: Seq<u8>|
        (vertex_map(s).contains_key(id) && vertex_map(s)[id] == t) <==> #[trigger] s.contains(
            VertexView { id, t },
        ) by {
        let v = VertexView { id, t };
        if vertex_map(s).contains_key(id) && vertex_map(s)[id] == t {
            let i = choose|i: int| 0 <= i < s.len() && (#[trigger] s[i]).id == id;
            assert(s[i] == v);
        }
        if s.contains(v) {
            let k = choose|k: int| 0 <= k < s.len() && s[k] == v;
            assert(s[k].id == id);
            let i = choose|i: int| 0 <= i < s.len() && (#[trigger] s[i]).id == id;
            assert(i == k) by {
                if i < k {
                    assert(s[i].id < s[k].id);
                }
                if k < i {
                    assert(s[k].id < s[i].id);
                }
            }
        }
    }
}

/// An ascending sequence stands for the map `m` when it holds exactly the
/// vertices that `m` describes.
pub proof fn lemma_vertex_map_is(s: Seq<VertexView>, m: Map<u128, Seq<u8>>)
    requires
        ascending(s),
        forall|id: u128, t: Seq<u8>|
            (m.contains_key(id) && m[id] == t) <==> #[trigger] s.contains(VertexView { id, t }),
    ensures
        vertex_map(s) == m,
{
    lemma_vertex_map_holds(s);
    let n = vertex_map(s);
    assert forall|id: u128| n.contains_key(id) <==> m.contains_key(id) by {
        if n.contains_key(id) {
            assert(s.contains(VertexView { id, t: n[id] }));
        }
        if m.contains_key(id) {
            assert(s.contains(VertexView { id, t: m[id] }));
        }
    }
    assert forall|id: u128| n.contains_key(id) implies n[id] == m[id] by {
        assert(s.contains(VertexView { id, t: n[id] }));
    }
    assert(n =~= m);
}

/// The vertex vector is fixed by what it holds: two ascending sequences
/// that hold the same vertices are the same sequence.
pub proof fn lemma_ascending_unique(a: Seq<VertexView>, b: Seq<VertexView>)
    requires
        ascending(a),
        ascending(b),
        forall|v: VertexView| a.contains(v) <==> b.contains(v),
    ensures
        a == b,
    decreases a.len(),
{
    if a.len() == 0 {
        if b.len() > 0 {
            assert(b.contains(b[0]));
            assert(a.contains(b[0]));
        }
        assert(a =~= b);
    } else {
        let la = a.last();
        assert(a.contains(a[a.len() - 1]));
        assert(b.contains(la));
        let lb = b.last();
        assert(b.contains(b[b.len() - 1]));
        assert(a.contains(lb));
        let k = choose|k: int| 0 <= k < b.len() && b[k] == la;
        let m = choose|m: int| 0 <= m < a.len() && a[m] == lb;
        if k < b.len() - 1 {
            assert(b[k].id < b[b.len() - 1].id);
            if m < a.len() - 1 {
                assert(a[m].id < a[a.len() - 1].id);
            }
        }
        assert(la == lb);
        let x = a.drop_last();
        let y = b.drop_last();
        assert forall|i: int, j: int| 0 <= i < j < x.len() implies
            (#[trigger] x[i]).id < (#[trigger] x[j]).id by {
            assert(x[i] == a[i] && x[j] == a[j]);
        }
        assert forall|i: int, j: int| 0 <= i < j < y.len() implies
            (#[trigger] y[i]).id < (#[trigger] y[j]).id by {
            assert(y[i] == b[i] && y[j] == b[j]);
        }
        assert forall|v: VertexView| x.contains(v) <==> y.contains(v) by {
            if x.contains(v) {
                let i = choose|i: int| 0 <= i < x.len() && x[i] == v;
                assert(a[i] == v);
                assert(a.contains(v));
                assert(a[i].id < a[a.len() - 1].id);
                let j = choose|j: int| 0 <= j < b.len() && b[j] == v;
                assert(y[j] == v);
            }
            if y.contains(v) {
                let j = choose|j: int| 0 <= j < y.len() && y[j] == v;
                assert(b[j] == v);
                assert(b.contains(v));
                assert(b[j].id < b[b.len() - 1].id);
                let i = choose|i: int| 0 <= i < a.len() && a[i] == v;
                assert(x[i] == v);
            }
        }
        lemma_ascending_unique(x, y);
        assert(a =~= x.push(la));
        assert(b =~= y.push(lb));
    }
}

/// The position of the first vertex whose identifier is not below `id`,
/// found by halving.
pub fn seek_vertex(v: &Vec<Vertex>, id: u128) -> (at: usize)
    requires
        ascending(vertex_views(v@)),
    ensures
        at <= v@.len(),
        forall|i: int| 0 <= i < at ==> (#[trigger] vertex_views(v@)[i]).id < id,
        forall|i: int| at <= i < v@.len() ==> (#[trigger] vertex_views(v@)[i]).id >= id,
{
    let ghost s = vertex_views(v@);
    let mut lo: usize = 0;
    let mut hi: usize = v.len();
    while lo < hi
        invariant
            lo <= hi <= v@.len(),
            s == vertex_views(v@),
            ascending(s),
            forall|i: int| 0 <= i < lo ==> (#[trigger] s[i]).id < id,
            forall|i: int| hi <= i < v@.len() ==> (#[trigger] s[i]).id >= id,
        decreases hi - lo,
    {
        let mid = lo + (hi - lo) / 2;
        assert(s[mid as int] == v@[mid as int]@);
        if v[mid].id < id {
            proof {
                assert forall|i: int| 0 <= i < mid + 1 implies (#[trigger] s[i]).id < id by {
                    if i < mid {
                        assert(s[i].id < s[mid as int].id);
                    }
                }
            }
            lo = mid + 1;
        } else {
            proof {
                assert forall|i: int| mid <= i < v@.len() implies (#[trigger] s[i]).id >= id by {
                    if mid < i {
                        assert(s[mid as int].id < s[i].id);
                    }
                }
            }
            hi = mid;
        }
    }
    lo
}

/// Where the vertex of an identifier stands, if the vector holds it.
pub fn find_vertex(v: &Vec<Vertex>, id: u128) -> (found: Option<usize>)
    requires
        ascending(vertex_views(v@)),
    ensures
        found is Some <==> vertex_map(vertex_views(v@)).contains_key(id),
        found matches Some(at) ==> at < v@.len() && v@[at as int]@ == (VertexView {
            id,
            t: vertex_map(vertex_views(v@))[id],
        }),
{
    let at = seek_vertex(v, id);
    let here = at < v.len() && v[at].id == id;
    proof {
        let s = vertex_views(v@);
        lemma_vertex_map_holds(s);
        if here {
            assert(s[at as int] == v@[at as int]@);
            assert(s.contains(s[at as int]));
        } else {
            assert forall|i: int| 0 <= i < s.len() implies (#[trigger] s[i]).id != id by {
                if i >= at {
                    assert(s[at as int] == v@[at as int]@);
                    assert(s[at as int].id >= id);
                    if i > at {
                        assert(s[at as int].id < s[i].id);
                    }
                } else {
                    assert(s[i].id < id);
                }
            }
        }
    }
    if here {
        Some(at)
    } else {
        None
    }
}

/// Sets the type tag of the vertex `id`, adding the vertex where the vector
/// does not hold it.
pub fn put_vertex(v: &mut Vec<Vertex>, id: u128, t: Type)
    requires
        ascending(vertex_views(old(v)@)),
    ensures
        ascending(vertex_views(final(v)@)),
        vertex_map(vertex_views(final(v)@)) == vertex_map(vertex_views(old(v)@)).insert(id, t@),
{
    let ghost before = vertex_views(v@);
    let ghost added = VertexView { id, t: t@ };
    let at = seek_vertex(v, id);
    let here = at < v.len() && v[at].id == id;
    proof {
        if at < v@.len() {
            assert(before[at as int] == v@[at as int]@);
        }
    }
    if here {
        v.remove(at);
    }
    let ghost middle = vertex_views(v@);
    v.insert(at, Vertex::new(id, t));
    proof {
        let after = vertex_views(v@);
        if here {
            assert(middle =~= before.remove(at as int));
            assert(after =~= before.update(at as int, added));
        } else {
            assert(after =~= before.insert(at as int, added));
        }
        assert(ascending(after)) by {
            assert forall|i: int, j: int| 0 <= i < j < after.len() implies (#[trigger] after[i]).id
                < (#[trigger] after[j]).id by {
                if here {
                    if i != at {
                        assert(after[i] == before[i]);
                    }
                    if j != at {
                        assert(after[j] == before[j]);
                    }
                    assert(before[i].id < before[j].id);
                } else {
                    let a = if i < at { i } else { i - 1 };
                    let b = if j < at { j } else { j - 1 };
                    if i != at {
                        assert(after[i] == before[a]);
                    }
                    if j != at {
                        assert(after[j] == before[b]);
                    }
                }
            }
        }
        assert forall|x: VertexView|
            after.contains(x) <==> (before.contains(x) && x.id != id) || x == added by {
            if after.contains(x) {
                let k = choose|k: int| 0 <= k < after.len() && after[k] == x;
                if here {
                    if k != at {
                        assert(before[k] == x);
                        if k < at {
                            assert(before[k].id < before[at as int].id);
                        } else {
                            assert(before[at as int].id < before[k].id);
                        }
                    }
                } else {
                    if k < at {
                        assert(before[k] == x);
                    } else if k > at {
                        assert(before[k - 1] == x);
                    }
                }
            }
            if before.contains(x) && x.id != id {
                let k = choose|k: int| 0 <= k < before.len() && before[k] == x;
                if here {
                    assert(after[k] == x);
                } else if k < at {
                    assert(after[k] == x);
                } else {
                    assert(after[k + 1] == x);
                }
            }
            if x == added {
                assert(after[at as int] == x);
            }
        }
        lemma_vertex_map_holds(before);
        let m = vertex_map(before).insert(id, added.t);
        assert forall|vid: u128, vt: Seq<u8>|
            (m.contains_key(vid) && m[vid] == vt) <==> #[trigger] after.contains(
                VertexView { id: vid, t: vt },
            ) by {
            let x = VertexView { id: vid, t: vt };
            assert(after.contains(x) <==> (before.contains(x) && x.id != id) || x == added);
        }
        lemma_vertex_map_is(after, m);
    }
}

/// Takes the vertex `id` out of the vector, where the vector holds it.
pub fn remove_vertex(v: &mut Vec<Vertex>, id: u128)
    requires
        ascending(vertex_views(old(v)@)),
    ensures
        ascending(vertex_views(final(v)@)),
        vertex_map(vertex_views(final(v)@)) == vertex_map(vertex_views(old(v)@)).remove(id),
{
    let ghost before = vertex_views(v@);
    let at = seek_vertex(v, id);
    let here = at < v.len() && v[at].id == id;
    proof {
        if at < v@.len() {
            assert(before[at as int] == v@[at as int]@);
        }
    }
    if here {
        v.remove(at);
    }
    proof {
        let after = vertex_views(v@);
        if here {
            assert(after =~= before.remove(at as int));
        } else {
            assert(after =~= before);
        }
        assert(ascending(after)) by {
            assert forall|i: int, j: int| 0 <= i < j < after.len() implies (#[trigger] after[i]).id
                < (#[trigger] after[j]).id by {
                if here {
                    let a = if i < at { i } else { i + 1 };
                    let b = if j < at { j } else { j + 1 };
                    assert(after[i] == before[a]);
                    assert(after[j] == before[b]);
                }
            }
        }
        assert forall|x: VertexView| after.contains(x) <==> before.contains(x) && x.id != id by {
            if after.contains(x) {
                let k = choose|k: int| 0 <= k < after.len() && after[k] == x;
                if here {
                    let a = if k < at { k } else { k + 1 };
                    assert(before[a] == x);
                    if a < at {
                        assert(before[a].id < before[at as int].id);
                    } else {
                        assert(before[at as int].id < before[a].id);
                    }
                } else {
                    assert(before[k] == x);
                }
            }
            if before.contains(x) && x.id != id {
                let k = choose|k: int| 0 <= k < before.len() && before[k] == x;
                if here {
                    if k < at {
                        assert(after[k] == x);
                    } else {
                        assert(after[k - 1] == x);
                    }
                } else {
                    assert(after[k] == x);
                }
            }
        }
        lemma_vertex_map_holds(before);
        let m = vertex_map(before).remove(id);
        assert forall|vid: u128, vt: Seq<u8>|
            (m.contains_key(vid) && m[vid] == vt) <==> #[trigger] after.contains(
                VertexView { id: vid, t: vt },
            ) by {
            let x = VertexView { id: vid, t: vt };
            assert(after.contains(x) <==> before.contains(x) && x.id != id);
        }
        lemma_vertex_map_is(after, m);
    }
}

/// The test that keeps the vertices whose identifier is not below `start`.
pub open spec fn not_below(start: u128) -> spec_fn(VertexView) -> bool {
    |v: VertexView| v.id >= start
}

/// Of the vertices whose identifier is not below `start`, in their order,
/// the first `limit`.
pub open spec fn vertex_page(s: Seq<VertexView>, start: u128, limit: int) -> Seq<VertexView> {
    let all = s.filter(not_below(start));
    all.take(
        if limit < all.len() {
            limit
        } else {
            all.len() as int
        },
    )
}

/// In an ascending sequence the vertices whose identifier is not below
/// `start` are those from the position `at` on, where `at` is the first
/// position of such a vertex.
pub proof fn lemma_vertex_page_from(s: Seq<VertexView>, start: u128, limit: int, at: int)
    requires
        0 <= at <= s.len(),
        0 <= limit,
        forall|i: int| 0 <= i < at ==> (#[trigger] s[i]).id < start,
        forall|i: int| at <= i < s.len() ==> (#[trigger] s[i]).id >= start,
    ensures
        vertex_page(s, start, limit) == s.subrange(
            at,
            if at + limit < s.len() {
                at + limit
            } else {
                s.len() as int
            },
        ),
{
    let p = not_below(start);
    assert(s =~= s.take(at) + s.skip(at));
    Seq::filter_distributes_over_add(s.take(at), s.skip(at), p);
    assert forall|i: int| 0 <= i < s.take(at).len() implies !p(#[trigger] s.take(at)[i]) by {
        assert(s.take(at)[i] == s[i]);
    }
    assert forall|i: int| 0 <= i < s.skip(at).len() implies p(#[trigger] s.skip(at)[i]) by {
        assert(s.skip(at)[i] == s[at + i]);
    }
    lemma_filter_nothing(s.take(at), p);
    lemma_filter_everything(s.skip(at), p);
    assert(s.filter(p) =~= s.skip(at));
    let to = if at + limit < s.len() {
        at + limit
    } else {
        s.len() as int
    };
    assert(vertex_page(s, start, limit) =~= s.subrange(at, to));
}

/// Copies out, in ascending order, the first `limit` vertices whose
/// identifier is not below `start`. The search goes straight to the first
/// of them.
pub fn range_from(v: &Vec<Vertex>, start: u128, limit: u16) -> (found: Vec<Vertex>)
    requires
        ascending(vertex_views(v@)),
    ensures
        vertex_views(found@) == vertex_page(vertex_views(v@), start, limit as int),
{
    let ghost s = vertex_views(v@);
    let from = seek_vertex(v, start);
    let mut found: Vec<Vertex> = Vec::new();
    let mut i: usize = from;
    proof {
        assert(vertex_views(found@) =~= s.subrange(from as int, from as int));
    }
    while i < v.len() && found.len() < limit as usize
        invariant
            from <= i <= v@.len(),
            s == vertex_views(v@),
            found@.len() == i - from,
            found@.len() <= limit,
            vertex_views(found@) == s.subrange(from as int, i as int),
        decreases v@.len() - i,
    {
        let ghost before = vertex_views(found@);
        found.push(v[i].duplicate());
        proof {
            assert(s[i as int] == v@[i as int]@);
            assert(vertex_views(found@) =~= before.push(v@[i as int]@));
            assert(s.subrange(from as int, i + 1) =~= s.subrange(from as int, i as int).push(
                s[i as int],
            ));
        }
        i += 1;
    }
    proof {
        lemma_vertex_page_from(s, start, limit as int, from as int);
    }
    found
}

} // verus!
