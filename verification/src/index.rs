//! Ordered indexes over edges: the three orders in which the datastore
//! keeps its edges, and the operations that keep a vector in one of them.

use crate::models::{
    bytes_lt, compare_types, lemma_bytes_lt_irreflexive, lemma_bytes_lt_total,
    lemma_bytes_lt_transitive, Edge, EdgeKey, EdgeKeyView, EdgeView, Rank, Type,
};
use crate::seqs::{
    lemma_filter_holds, lemma_filter_none, lemma_filter_nothing, lemma_filter_pairwise,
    lemma_filter_step, pairwise,
};
use vstd::prelude::*;

verus! {

/// The orders in which edges are kept.
#[derive(Debug, Clone, Copy, PartialEq, Eq, Structural)]
pub enum IndexKind {
    /// By identity: outbound identifier, type tag, inbound identifier.
    Primary,
    /// By outbound identifier, type tag, time of last write with the newest
    /// first, inbound identifier.
    Outbound,
    /// By inbound identifier, type tag, time of last write with the newest
    /// first, outbound identifier.
    Inbound,
}

/// The place of an edge in an index, compared field by field.
pub struct SortKey {
    pub anchor: u128,
    pub t: Seq<u8>,
    /// How far the time of the last write lies below the greatest time, so
    /// that a newer edge has the smaller age.
    pub age: int,
    pub other: u128,
}

/// The time of an edge's last write turned around, so that newer is smaller.
pub open spec fn age_of(updated_at: u64) -> int {
    u64::MAX - updated_at
}

/// The place of an edge in the index of the given kind.
pub open spec fn sort_key(kind: IndexKind, e: EdgeView) -> SortKey {
    match kind {
        IndexKind::Primary => SortKey {
            anchor: e.key.outbound_id,
            t: e.key.t,
            age: 0,
            other: e.key.inbound_id,
        },
        IndexKind::Outbound => SortKey {
            anchor: e.key.outbound_id,
            t: e.key.t,
            age: age_of(e.updated_at),
            other: e.key.inbound_id,
        },
        IndexKind::Inbound => SortKey {
            anchor: e.key.inbound_id,
            t: e.key.t,
            age: age_of(e.updated_at),
            other: e.key.outbound_id,
        },
    }
}

/// The order of places: by anchor, then tag, then age, then the other end.
pub open spec fn key_lt(a: SortKey, b: SortKey) -> bool {
    if a.anchor != b.anchor {
        a.anchor < b.anchor
    } else if a.t != b.t {
        bytes_lt(a.t, b.t)
    } else if a.age != b.age {
        a.age < b.age
    } else {
        a.other < b.other
    }
}

/// Whether `a` comes before `b` in the index of the given kind.
pub open spec fn edge_lt(kind: IndexKind, a: EdgeView, b: EdgeView) -> bool {
    key_lt(sort_key(kind, a), sort_key(kind, b))
}

/// No place comes before itself, and of two places at most one comes before
/// the other.
pub proof fn lemma_key_lt_asymmetric(a: SortKey, b: SortKey)
    ensures
        !(key_lt(a, b) && key_lt(b, a)),
        !key_lt(a, a),
{
    lemma_bytes_lt_total(a.t, b.t);
}

/// The order of places is transitive.
pub proof fn lemma_key_lt_transitive(a: SortKey, b: SortKey, c: SortKey)
    requires
        key_lt(a, b),
        key_lt(b, c),
    ensures
        key_lt(a, c),
{
    lemma_bytes_lt_total(a.t, b.t);
    lemma_bytes_lt_total(b.t, c.t);
    lemma_bytes_lt_total(a.t, c.t);
    if bytes_lt(a.t, b.t) && bytes_lt(b.t, c.t) {
        lemma_bytes_lt_transitive(a.t, b.t, c.t);
    }
}

/// Of two different places one comes before the other.
pub proof fn lemma_key_lt_total(a: SortKey, b: SortKey)
    ensures
        key_lt(a, b) || key_lt(b, a) || a == b,
{
    lemma_bytes_lt_total(a.t, b.t);
}

/// Whether a sequence of edges is in the strict order of the given kind.
pub open spec fn sorted(kind: IndexKind, s: Seq<EdgeView>) -> bool {
    forall|i: int, j: int| 0 <= i < j < s.len() ==> edge_lt(kind, #[trigger] s[i], #[trigger] s[j])
}

/// The plain values of a sequence of edges.
pub open spec fn edge_views(s: Seq<Edge>) -> Seq<EdgeView> {
    Seq::new(s.len(), |i: int| s[i]@)
}

/// An edge of the given identity and time, for finding a place in an
/// index. Its weight plays no part in any order.
pub open spec fn placed(key: EdgeKeyView, updated_at: u64) -> EdgeView {
    EdgeView { key, weight: 0, updated_at }
}

/// Tells whether an edge of the identity `a`, last written at `a_time`,
/// comes before one of the identity `b`, last written at `b_time`, in the
/// index of the given kind.
pub fn place_before(kind: IndexKind, a: &EdgeKey, a_time: u64, b: &EdgeKey, b_time: u64) -> (before:
    bool)
    ensures
        before == edge_lt(kind, placed(a@, a_time), placed(b@, b_time)),
{
    let (a_anchor, a_other, b_anchor, b_other) = match kind {
        IndexKind::Primary | IndexKind::Outbound => (
            a.outbound_id,
            a.inbound_id,
            b.outbound_id,
            b.inbound_id,
        ),
        IndexKind::Inbound => (a.inbound_id, a.outbound_id, b.inbound_id, b.outbound_id),
    };
    if a_anchor != b_anchor {
        return a_anchor < b_anchor;
    }
    proof {
        lemma_bytes_lt_irreflexive(a.t@);
    }
    match compare_types(&a.t, &b.t) {
        Rank::Before => true,
        Rank::After => false,
        Rank::Same => {
            match kind {
                IndexKind::Primary => a_other < b_other,
                _ => {
                    if a_time != b_time {
                        a_time > b_time
                    } else {
                        a_other < b_other
                    }
                },
            }
        },
    }
}

/// The position in an index at which an edge of the given identity and
/// time belongs: that of the first edge that does not come before it, found
/// by halving.
pub fn position(v: &Vec<Edge>, kind: IndexKind, key: &EdgeKey, updated_at: u64) -> (at: usize)
    requires
        sorted(kind, edge_views(v@)),
    ensures
        at <= v@.len(),
        forall|i: int|
            0 <= i < at ==> edge_lt(kind, #[trigger] edge_views(v@)[i], placed(key@, updated_at)),
        forall|i: int|
            at <= i < v@.len() ==> !edge_lt(
                kind,
                #[trigger] edge_views(v@)[i],
                placed(key@, updated_at),
            ),
{
    let ghost s = edge_views(v@);
    let ghost probe = placed(key@, updated_at);
    let mut lo: usize = 0;
    let mut hi: usize = v.len();
    while lo < hi
        invariant
            lo <= hi <= v@.len(),
            s == edge_views(v@),
            probe == placed(key@, updated_at),
            sorted(kind, s),
            forall|i: int| 0 <= i < lo ==> edge_lt(kind, #[trigger] s[i], probe),
            forall|i: int| hi <= i < v@.len() ==> !edge_lt(kind, #[trigger] s[i], probe),
        decreases hi - lo,
    {
        let mid = lo + (hi - lo) / 2;
        assert(s[mid as int] == v@[mid as int]@);
        if place_before(kind, &v[mid].key, v[mid].updated_at, key, updated_at) {
            proof {
                assert forall|i: int| 0 <= i < mid + 1 implies edge_lt(
                    kind,
                    #[trigger] s[i],
                    probe,
                ) by {
                    if i < mid {
                        assert(edge_lt(kind, s[i], s[mid as int]));
                        lemma_key_lt_transitive(
                            sort_key(kind, s[i]),
                            sort_key(kind, s[mid as int]),
                            sort_key(kind, probe),
                        );
                    }
                }
            }
            lo = mid + 1;
        } else {
            proof {
                assert forall|i: int| mid <= i < v@.len() implies !edge_lt(
                    kind,
                    #[trigger] s[i],
                    probe,
                ) by {
                    if mid < i && edge_lt(kind, s[i], probe) {
                        assert(edge_lt(kind, s[mid as int], s[i]));
                        lemma_key_lt_transitive(
                            sort_key(kind, s[mid as int]),
                            sort_key(kind, s[i]),
                            sort_key(kind, probe),
                        );
                    }
                }
            }
            hi = mid;
        }
    }
    lo
}

/// The end of an edge that an index of the given kind is anchored on: the
/// inbound end for the inbound index, the outbound end for the others.
pub open spec fn anchor_of(kind: IndexKind, e: EdgeView) -> u128 {
    sort_key(kind, e).anchor
}

/// A condition on edges, as plain values.
pub enum EdgeFilterView {
    Incident { id: u128 },
    Identity { key: EdgeKeyView },
    Anchored { side: IndexKind, anchor: u128, t: Option<Seq<u8>>, high: Option<u64>, low: Option<u64> },
}

impl EdgeFilterView {
    /// Whether an edge meets the condition.
    pub open spec fn accepts(self, e: EdgeView) -> bool {
        match self {
            EdgeFilterView::Incident { id } => e.key.outbound_id == id || e.key.inbound_id == id,
            EdgeFilterView::Identity { key } => e.key == key,
            EdgeFilterView::Anchored { side, anchor, t, high, low } => {
                &&& anchor_of(side, e) == anchor
                &&& (t matches Some(tag) ==> e.key.t == tag)
                &&& (high matches Some(bound) ==> e.updated_at <= bound)
                &&& (low matches Some(bound) ==> e.updated_at > bound)
            },
        }
    }
}

/// A condition on edges.
#[derive(Debug)]
pub enum EdgeFilter {
    /// The edges that start or end at the vertex `id`.
    Incident { id: u128 },
    /// The edge of the identity `key`.
    Identity { key: EdgeKey },
    /// The edges whose end on the given side is `anchor`; where `t` is given,
    /// those of that type only; where `high` is given, those last written at
    /// or before it; where `low` is given, those last written after it.
    Anchored { side: IndexKind, anchor: u128, t: Option<Type>, high: Option<u64>, low: Option<u64> },
}

impl View for EdgeFilter {
    type V = EdgeFilterView;

    open spec fn view(&self) -> EdgeFilterView {
        match self {
            EdgeFilter::Incident { id } => EdgeFilterView::Incident { id: *id },
            EdgeFilter::Identity { key } => EdgeFilterView::Identity { key: key@ },
            EdgeFilter::Anchored { side, anchor, t, high, low } => EdgeFilterView::Anchored {
                side: *side,
                anchor: *anchor,
                t: match t {
                    Some(tag) => Some(tag@),
                    None => None,
                },
                high: *high,
                low: *low,
            },
        }
    }
}

impl EdgeFilter {
    /// Tells whether an edge meets the condition.
    pub fn test(&self, e: &Edge) -> (met: bool)
        ensures
            met == self@.accepts(e@),
    {
        match self {
            EdgeFilter::Incident { id } => e.key.outbound_id == *id || e.key.inbound_id == *id,
            EdgeFilter::Identity { key } => e.key.same(key),
            EdgeFilter::Anchored { side, anchor, t, high, low } => {
                let end = match side {
                    IndexKind::Inbound => e.key.inbound_id,
                    _ => e.key.outbound_id,
                };
                if end != *anchor {
                    return false;
                }
                let tag_ok = match t {
                    Some(tag) => {
                        proof {
                            lemma_bytes_lt_irreflexive(tag@);
                        }
                        matches!(compare_types(&e.key.t, tag), Rank::Same)
                    },
                    None => true,
                };
                let high_ok = match high {
                    Some(bound) => e.updated_at <= *bound,
                    None => true,
                };
                let low_ok = match low {
                    Some(bound) => e.updated_at > *bound,
                    None => true,
                };
                tag_ok && high_ok && low_ok
            },
        }
    }
}

/// The test that keeps the edges on which a condition comes out as `wanted`.
pub open spec fn chosen(f: EdgeFilterView, wanted: bool) -> spec_fn(EdgeView) -> bool {
    |e: EdgeView| f.accepts(e) == wanted
}

/// The edges of `s`, in their order, on which the condition `f` comes out
/// as `wanted`.
pub open spec fn select(s: Seq<EdgeView>, f: EdgeFilterView, wanted: bool) -> Seq<EdgeView> {
    s.filter(chosen(f, wanted))
}

/// The relation of coming first in the index of the given kind.
pub open spec fn edge_order(kind: IndexKind) -> spec_fn(EdgeView, EdgeView) -> bool {
    |a: EdgeView, b: EdgeView| edge_lt(kind, a, b)
}

/// Selecting from one more edge either adds that edge at the end or changes
/// nothing.
pub proof fn lemma_select_step(s: Seq<EdgeView>, f: EdgeFilterView, wanted: bool, i: int)
    requires
        0 <= i < s.len(),
    ensures
        select(s.take(i + 1), f, wanted) == if f.accepts(s[i]) == wanted {
            select(s.take(i), f, wanted).push(s[i])
        } else {
            select(s.take(i), f, wanted)
        },
{
    lemma_filter_step(s, chosen(f, wanted), i);
}

/// Nothing is selected from the empty prefix of a sequence.
pub proof fn lemma_select_none(s: Seq<EdgeView>, f: EdgeFilterView, wanted: bool)
    ensures
        select(s.take(0), f, wanted) == Seq::<EdgeView>::empty(),
{
    lemma_filter_none(s, chosen(f, wanted));
}

/// An edge is selected exactly when it is in the sequence and the condition
/// comes out as wanted.
pub proof fn lemma_select_contains(s: Seq<EdgeView>, f: EdgeFilterView, wanted: bool)
    ensures
        forall|e: EdgeView| #[trigger]
            select(s, f, wanted).contains(e) <==> s.contains(e) && f.accepts(e) == wanted,
{
    lemma_filter_holds(s, chosen(f, wanted));
}

/// Selecting from an ordered sequence leaves an ordered sequence.
pub proof fn lemma_select_sorted(kind: IndexKind, s: Seq<EdgeView>, f: EdgeFilterView, wanted: bool)
    requires
        sorted(kind, s),
    ensures
        sorted(kind, select(s, f, wanted)),
{
    assert(pairwise(s, edge_order(kind)));
    lemma_filter_pairwise(s, chosen(f, wanted), edge_order(kind));
    let picked = select(s, f, wanted);
    assert forall|i: int, j: int| 0 <= i < j < picked.len() implies edge_lt(
        kind,
        #[trigger] picked[i],
        #[trigger] picked[j],
    ) by {
        assert(edge_order(kind)(picked[i], picked[j]));
    }
}

/// Taking a prefix of a vector's edges is the same in values as in edges.
proof fn lemma_views_take(v: Seq<Edge>, i: int)
    requires
        0 <= i <= v.len(),
    ensures
        edge_views(v).take(i) == edge_views(v.take(i)),
        edge_views(v).take(v.len() as int) == edge_views(v),
{
    assert(edge_views(v).take(i) =~= edge_views(v.take(i)));
    assert(edge_views(v).take(v.len() as int) =~= edge_views(v));
}

/// Copies out, in their order, the edges on which the condition comes out
/// as `wanted`.
pub fn retain(v: &Vec<Edge>, f: &EdgeFilter, wanted: bool) -> (kept: Vec<Edge>)
    ensures
        edge_views(kept@) == select(edge_views(v@), f@, wanted),
{
    let mut kept: Vec<Edge> = Vec::new();
    let mut i: usize = 0;
    proof {
        lemma_select_none(edge_views(v@), f@, wanted);
        assert(edge_views(kept@) =~= Seq::<EdgeView>::empty());
    }
    while i < v.len()
        invariant
            i <= v@.len(),
            edge_views(kept@) == select(edge_views(v@).take(i as int), f@, wanted),
        decreases v@.len() - i,
    {
        let met = f.test(&v[i]);
        proof {
            lemma_select_step(edge_views(v@), f@, wanted, i as int);
        }
        if met == wanted {
            let ghost before = edge_views(kept@);
            kept.push(v[i].duplicate());
            assert(edge_views(kept@) =~= before.push(v@[i as int]@));
        }
        i += 1;
    }
    proof {
        lemma_views_take(v@, v@.len() as int);
    }
    kept
}

/// The part of a sequence that a query with an offset and a limit returns:
/// what follows the first `offset` entries, up to `limit` entries of it.
pub open spec fn page(s: Seq<EdgeView>, offset: int, limit: int) -> Seq<EdgeView> {
    let from = if offset < s.len() {
        offset
    } else {
        s.len() as int
    };
    let to = if offset + limit < s.len() {
        offset + limit
    } else {
        s.len() as int
    };
    s.subrange(from, to)
}

/// A page grows by the entry added to the sequence exactly when that entry
/// lies behind the offset and the page is not full.
pub proof fn lemma_page_push(s: Seq<EdgeView>, e: EdgeView, offset: int, limit: int)
    requires
        0 <= offset,
        0 <= limit,
    ensures
        page(s.push(e), offset, limit) == if offset <= s.len() < offset + limit {
            page(s, offset, limit).push(e)
        } else {
            page(s, offset, limit)
        },
{
    if offset <= s.len() < offset + limit {
        assert(page(s.push(e), offset, limit) =~= page(s, offset, limit).push(e));
    } else {
        assert(page(s.push(e), offset, limit) =~= page(s, offset, limit));
    }
}

/// Whether two sequences hold the same edges.
pub open spec fn same_edges(a: Seq<EdgeView>, b: Seq<EdgeView>) -> bool {
    forall|e: EdgeView| a.contains(e) <==> b.contains(e)
}

/// Puts an edge into an ordered vector at its place. No edge of the vector
/// may stand at the same place of the index as the new one.
pub fn insert_sorted(v: &mut Vec<Edge>, kind: IndexKind, e: Edge)
    requires
        sorted(kind, edge_views(old(v)@)),
        forall|i: int|
            0 <= i < old(v)@.len() ==> sort_key(kind, #[trigger] edge_views(old(v)@)[i])
                != sort_key(kind, e@),
    ensures
        sorted(kind, edge_views(final(v)@)),
        final(v)@.len() == old(v)@.len() + 1,
        forall|x: EdgeView|
            edge_views(final(v)@).contains(x) <==> edge_views(old(v)@).contains(x) || x == e@,
{
    let ghost before = edge_views(v@);
    let ghost added = e@;
    let at = position(v, kind, &e.key, e.updated_at);
    proof {
        assert forall|i: int| 0 <= i < at implies edge_lt(kind, #[trigger] before[i], added) by {
            assert(edge_lt(kind, before[i], placed(e.key@, e.updated_at)));
        }
        if at < v@.len() {
            assert(!edge_lt(kind, before[at as int], placed(e.key@, e.updated_at)));
            lemma_key_lt_total(sort_key(kind, before[at as int]), sort_key(kind, added));
            assert(edge_lt(kind, added, before[at as int]));
        }
    }
    v.insert(at, e);
    proof {
        let after = edge_views(v@);
        assert(after =~= before.insert(at as int, added));
        assert forall|i: int, j: int| 0 <= i < j < after.len() implies edge_lt(
            kind,
            #[trigger] after[i],
            #[trigger] after[j],
        ) by {
            if j < at {
                assert(after[i] == before[i] && after[j] == before[j]);
            } else if j == at {
                assert(after[i] == before[i]);
            } else if i < at {
                assert(after[i] == before[i] && after[j] == before[j - 1]);
            } else if i == at {
                assert(after[j] == before[j - 1]);
                if j - 1 > at {
                    assert(edge_lt(kind, before[at as int], before[j - 1]));
                    lemma_key_lt_transitive(
                        sort_key(kind, added),
                        sort_key(kind, before[at as int]),
                        sort_key(kind, before[j - 1]),
                    );
                }
            } else {
                assert(after[i] == before[i - 1] && after[j] == before[j - 1]);
            }
        }
        assert forall|x: EdgeView| after.contains(x) <==> before.contains(x) || x == added by {
            if after.contains(x) {
                let k = choose|k: int| 0 <= k < after.len() && after[k] == x;
                if k < at {
                    assert(before[k] == x);
                } else if k > at {
                    assert(before[k - 1] == x);
                }
            }
            if before.contains(x) {
                let k = choose|k: int| 0 <= k < before.len() && before[k] == x;
                if k < at {
                    assert(after[k] == x);
                } else {
                    assert(after[k + 1] == x);
                }
            }
            if x == added {
                assert(after[at as int] == x);
            }
        }
    }
}

/// Where the edge of an identity stands in the vector of the edge map, if
/// the vector holds one.
pub fn find_edge(v: &Vec<Edge>, key: &EdgeKey) -> (found: Option<usize>)
    requires
        sorted(IndexKind::Primary, edge_views(v@)),
    ensures
        found matches Some(at) ==> at < v@.len() && edge_views(v@)[at as int].key == key@,
        found is None ==> forall|i: int|
            0 <= i < v@.len() ==> (#[trigger] edge_views(v@)[i]).key != key@,
{
    let ghost s = edge_views(v@);
    let ghost probe = placed(key@, 0);
    let at = position(v, IndexKind::Primary, key, 0);
    if at < v.len() {
        assert(s[at as int] == v@[at as int]@);
        if v[at].key.same(key) {
            return Some(at);
        }
    }
    proof {
        assert forall|i: int| 0 <= i < v@.len() implies (#[trigger] s[i]).key != key@ by {
            if s[i].key == key@ {
                lemma_key_lt_asymmetric(
                    sort_key(IndexKind::Primary, s[i]),
                    sort_key(IndexKind::Primary, probe),
                );
                if i < at {
                    assert(edge_lt(IndexKind::Primary, s[i], probe));
                } else if i > at {
                    assert(edge_lt(IndexKind::Primary, s[at as int], s[i]));
                    assert(!edge_lt(IndexKind::Primary, s[at as int], probe));
                }
            }
        }
    }
    None
}

/// An index is fixed by what it holds: two sequences in the order of one
/// kind that hold the same edges are the same sequence.
pub proof fn lemma_sorted_unique(kind: IndexKind, a: Seq<EdgeView>, b: Seq<EdgeView>)
    requires
        sorted(kind, a),
        sorted(kind, b),
        same_edges(a, b),
    ensures
        a == b,
    decreases a.len(),
{
    if a.len() == 0 {
        if b.len() > 0 {
            assert(b.contains(b[0]));
            assert(a.contains(b[0]));
        }
        assert(a =~= b);
    } else {
        let la = a.last();
        assert(a.contains(a[a.len() - 1]));
        assert(b.contains(la));
        let lb = b.last();
        assert(b.contains(b[b.len() - 1]));
        assert(a.contains(lb));
        let k = choose|k: int| 0 <= k < b.len() && b[k] == la;
        let m = choose|m: int| 0 <= m < a.len() && a[m] == lb;
        lemma_key_lt_asymmetric(sort_key(kind, la), sort_key(kind, lb));
        if k < b.len() - 1 {
            assert(edge_lt(kind, b[k], b[b.len() - 1]));
            if m < a.len() - 1 {
                assert(edge_lt(kind, a[m], a[a.len() - 1]));
            }
        }
        assert(la == lb);
        let x = a.drop_last();
        let y = b.drop_last();
        assert forall|i: int, j: int| 0 <= i < j < x.len() implies edge_lt(
            kind,
            #[trigger] x[i],
            #[trigger] x[j],
        ) by {
            assert(x[i] == a[i] && x[j] == a[j]);
        }
        assert forall|i: int, j: int| 0 <= i < j < y.len() implies edge_lt(
            kind,
            #[trigger] y[i],
            #[trigger] y[j],
        ) by {
            assert(y[i] == b[i] && y[j] == b[j]);
        }
        assert forall|e: EdgeView| x.contains(e) <==> y.contains(e) by {
            lemma_key_lt_asymmetric(sort_key(kind, e), sort_key(kind, la));
            if x.contains(e) {
                let i = choose|i: int| 0 <= i < x.len() && x[i] == e;
                assert(a[i] == e);
                assert(a.contains(e));
                assert(edge_lt(kind, a[i], a[a.len() - 1]));
                let j = choose|j: int| 0 <= j < b.len() && b[j] == e;
                assert(y[j] == e);
            }
            if y.contains(e) {
                let j = choose|j: int| 0 <= j < y.len() && y[j] == e;
                assert(b[j] == e);
                assert(b.contains(e));
                assert(edge_lt(kind, b[j], b[b.len() - 1]));
                let i = choose|i: int| 0 <= i < a.len() && a[i] == e;
                assert(x[i] == e);
            }
        }
        lemma_sorted_unique(kind, x, y);
        assert(a =~= x.push(la));
        assert(b =~= y.push(lb));
    }
}

/// In an index the anchors never fall: an edge's anchor is at most that of
/// any edge behind it.
pub proof fn lemma_anchors_ascend(side: IndexKind, s: Seq<EdgeView>, i: int, j: int)
    requires
        sorted(side, s),
        0 <= i <= j < s.len(),
    ensures
        anchor_of(side, s[i]) <= anchor_of(side, s[j]),
{
    if i < j {
        assert(edge_lt(side, s[i], s[j]));
    }
}

/// The position in an index of the first edge whose anchor is not below
/// `anchor`, found by halving.
pub fn seek(v: &Vec<Edge>, side: IndexKind, anchor: u128) -> (at: usize)
    requires
        sorted(side, edge_views(v@)),
    ensures
        at <= v@.len(),
        forall|i: int| 0 <= i < at ==> anchor_of(side, #[trigger] edge_views(v@)[i]) < anchor,
        forall|i: int|
            at <= i < v@.len() ==> anchor_of(side, #[trigger] edge_views(v@)[i]) >= anchor,
{
    let ghost s = edge_views(v@);
    let mut lo: usize = 0;
    let mut hi: usize = v.len();
    while lo < hi
        invariant
            lo <= hi <= v@.len(),
            s == edge_views(v@),
            sorted(side, s),
            forall|i: int| 0 <= i < lo ==> anchor_of(side, #[trigger] s[i]) < anchor,
            forall|i: int| hi <= i < v@.len() ==> anchor_of(side, #[trigger] s[i]) >= anchor,
        decreases hi - lo,
    {
        let mid = lo + (hi - lo) / 2;
        let here = match side {
            IndexKind::Inbound => v[mid].key.inbound_id,
            _ => v[mid].key.outbound_id,
        };
        assert(s[mid as int] == v@[mid as int]@);
        if here < anchor {
            proof {
                assert forall|i: int| 0 <= i < mid + 1 implies anchor_of(side, #[trigger] s[i])
                    < anchor by {
                    lemma_anchors_ascend(side, s, i, mid as int);
                }
            }
            lo = mid + 1;
        } else {
            proof {
                assert forall|i: int| mid <= i < v@.len() implies anchor_of(side, #[trigger] s[i])
                    >= anchor by {
                    lemma_anchors_ascend(side, s, mid as int, i);
                }
            }
            hi = mid;
        }
    }
    lo
}

/// A sequence none of whose edges meets a condition has nothing selected
/// from it.
pub proof fn lemma_select_nothing(s: Seq<EdgeView>, f: EdgeFilterView)
    requires
        forall|i: int| 0 <= i < s.len() ==> !f.accepts(#[trigger] s[i]),
    ensures
        select(s, f, true) == Seq::<EdgeView>::empty(),
{
    lemma_filter_nothing(s, chosen(f, true));
}

/// What is selected from a sequence is what is selected from its part
/// before `i`, followed by what is selected from the rest.
pub proof fn lemma_select_split(s: Seq<EdgeView>, f: EdgeFilterView, i: int)
    requires
        0 <= i <= s.len(),
    ensures
        select(s, f, true) == select(s.take(i), f, true) + select(s.skip(i), f, true),
{
    assert(s =~= s.take(i) + s.skip(i));
    Seq::filter_distributes_over_add(s.take(i), s.skip(i), chosen(f, true));
}

/// Where every edge that meets a condition stands from `lo` on and before
/// `hi`, what is selected from the sequence is what is selected from that
/// stretch.
pub proof fn lemma_select_within(s: Seq<EdgeView>, f: EdgeFilterView, lo: int, hi: int)
    requires
        0 <= lo <= hi <= s.len(),
        forall|i: int| 0 <= i < lo ==> !f.accepts(#[trigger] s[i]),
        forall|i: int| hi <= i < s.len() ==> !f.accepts(#[trigger] s[i]),
    ensures
        select(s, f, true) == select(s.subrange(lo, hi), f, true),
{
    lemma_select_split(s, f, hi);
    lemma_select_split(s.take(hi), f, lo);
    assert(s.take(hi).take(lo) =~= s.take(lo));
    assert(s.take(hi).skip(lo) =~= s.subrange(lo, hi));
    assert forall|i: int| 0 <= i < s.take(lo).len() implies !f.accepts(
        #[trigger] s.take(lo)[i],
    ) by {
        assert(s.take(lo)[i] == s[i]);
    }
    assert forall|i: int| 0 <= i < s.skip(hi).len() implies !f.accepts(
        #[trigger] s.skip(hi)[i],
    ) by {
        assert(s.skip(hi)[i] == s[hi + i]);
    }
    lemma_select_nothing(s.take(lo), f);
    lemma_select_nothing(s.skip(hi), f);
    assert(select(s, f, true) =~= select(s.subrange(lo, hi), f, true));
}

/// A page that is full stays as it is when the sequence grows at its end.
pub proof fn lemma_page_full(a: Seq<EdgeView>, b: Seq<EdgeView>, offset: int, limit: int)
    requires
        0 <= offset,
        0 <= limit,
        page(a, offset, limit).len() == limit,
    ensures
        page(a + b, offset, limit) == page(a, offset, limit),
{
    assert(page(a + b, offset, limit) =~= page(a, offset, limit));
}

/// Copies out the page of the edges of an index that meet the condition of
/// a range query on the index's own side. The search goes straight to the
/// edges of the anchor, and ends with them or when the page is full.
pub fn range_of(
    v: &Vec<Edge>,
    side: IndexKind,
    anchor: u128,
    t: Option<Type>,
    high: Option<u64>,
    low: Option<u64>,
    offset: u64,
    limit: u16,
) -> (found: Vec<Edge>)
    requires
        sorted(side, edge_views(v@)),
    ensures
        edge_views(found@) == page(
            select(
                edge_views(v@),
                EdgeFilterView::Anchored {
                    side,
                    anchor,
                    t: match t {
                        Some(tag) => Some(tag@),
                        None => None,
                    },
                    high,
                    low,
                },
                true,
            ),
            offset as int,
            limit as int,
        ),
{
    let filter = EdgeFilter::Anchored { side, anchor, t, high, low };
    let ghost f = filter@;
    let ghost s = edge_views(v@);
    let from = seek(v, side, anchor);
    let ghost rest = s.skip(from as int);
    let mut found: Vec<Edge> = Vec::new();
    let mut seen: u64 = 0;
    let mut i: usize = from;
    proof {
        lemma_select_none(rest, f, true);
        assert(edge_views(found@) =~= Seq::<EdgeView>::empty());
        assert(page(Seq::<EdgeView>::empty(), offset as int, limit as int) =~= Seq::<
            EdgeView,
        >::empty());
    }
    loop
        invariant
            from <= i <= v@.len(),
            s == edge_views(v@),
            rest == s.skip(from as int),
            f == filter@,
            f == (EdgeFilterView::Anchored { side, anchor, t: f->t, high, low }),
            sorted(side, s),
            forall|k: int| 0 <= k < from ==> anchor_of(side, #[trigger] s[k]) < anchor,
            forall|k: int| from <= k < i ==> anchor_of(side, #[trigger] s[k]) == anchor,
            forall|k: int| from <= k < v@.len() ==> anchor_of(side, #[trigger] s[k]) >= anchor,
            seen == select(rest.take(i - from), f, true).len(),
            seen <= i - from,
            edge_views(found@) == page(
                select(rest.take(i - from), f, true),
                offset as int,
                limit as int,
            ),
        ensures
            edge_views(found@) == page(select(s, f, true), offset as int, limit as int),
        decreases v@.len() - i,
    {
        let ghost part = select(rest.take(i - from), f, true);
        if found.len() >= limit as usize {
            proof {
                // The page is full: what stands behind cannot change it.
                lemma_select_split(s, f, from as int);
                lemma_select_split(rest, f, i - from);
                assert forall|k: int| 0 <= k < s.take(from as int).len() implies !f.accepts(
                    #[trigger] s.take(from as int)[k],
                ) by {
                    assert(s.take(from as int)[k] == s[k]);
                }
                lemma_select_nothing(s.take(from as int), f);
                assert(select(s, f, true) =~= part + select(rest.skip(i - from), f, true));
                lemma_page_full(
                    part,
                    select(rest.skip(i - from), f, true),
                    offset as int,
                    limit as int,
                );
            }
            break;
        }
        let past = if i < v.len() {
            let here = match side {
                IndexKind::Inbound => v[i].key.inbound_id,
                _ => v[i].key.outbound_id,
            };
            assert(s[i as int] == v@[i as int]@);
            here != anchor
        } else {
            true
        };
        if past {
            proof {
                // The edges of the anchor end here.
                assert forall|k: int| i <= k < s.len() implies !f.accepts(#[trigger] s[k]) by {
                    lemma_anchors_ascend(side, s, i as int, k);
                    assert(anchor_of(side, s[i as int]) >= anchor);
                }
                assert forall|k: int| 0 <= k < from implies !f.accepts(#[trigger] s[k]) by {
                    assert(anchor_of(side, s[k]) < anchor);
                }
                lemma_select_within(s, f, from as int, i as int);
                assert(s.subrange(from as int, i as int) =~= rest.take(i - from));
            }
            break;
        }
        let met = filter.test(&v[i]);
        proof {
            assert(rest[i - from] == s[i as int]);
            lemma_select_step(rest, f, true, i - from);
            lemma_page_push(part, s[i as int], offset as int, limit as int);
        }
        if met {
            if seen >= offset && seen - offset < limit as u64 {
                let ghost before = edge_views(found@);
                found.push(v[i].duplicate());
                assert(edge_views(found@) =~= before.push(v@[i as int]@));
            }
            seen += 1;
        }
        i += 1;
    }
    found
}

/// Counts the edges of an index that meet the condition of a range query
/// on the index's own side. The search goes straight to the edges of the
/// anchor and ends with them.
pub fn count_in(v: &Vec<Edge>, side: IndexKind, anchor: u128, t: Option<Type>) -> (count: u64)
    requires
        sorted(side, edge_views(v@)),
    ensures
        count == select(
            edge_views(v@),
            EdgeFilterView::Anchored {
                side,
                anchor,
                t: match t {
                    Some(tag) => Some(tag@),
                    None => None,
                },
                high: None,
                low: None,
            },
            true,
        ).len(),
{
    let filter = EdgeFilter::Anchored { side, anchor, t, high: None, low: None };
    let ghost f = filter@;
    let ghost s = edge_views(v@);
    let from = seek(v, side, anchor);
    let ghost rest = s.skip(from as int);
    let mut count: u64 = 0;
    let mut i: usize = from;
    proof {
        lemma_select_none(rest, f, true);
    }
    loop
        invariant
            from <= i <= v@.len(),
            s == edge_views(v@),
            rest == s.skip(from as int),
            f == filter@,
            f == (EdgeFilterView::Anchored { side, anchor, t: f->t, high: None, low: None }),
            sorted(side, s),
            forall|k: int| 0 <= k < from ==> anchor_of(side, #[trigger] s[k]) < anchor,
            forall|k: int| from <= k < i ==> anchor_of(side, #[trigger] s[k]) == anchor,
            forall|k: int| from <= k < v@.len() ==> anchor_of(side, #[trigger] s[k]) >= anchor,
            count == select(rest.take(i - from), f, true).len(),
            count <= i - from,
        ensures
            count == select(s, f, true).len(),
        decreases v@.len() - i,
    {
        let past = if i < v.len() {
            let here = match side {
                IndexKind::Inbound => v[i].key.inbound_id,
                _ => v[i].key.outbound_id,
            };
            assert(s[i as int] == v@[i as int]@);
            here != anchor
        } else {
            true
        };
        if past {
            proof {
                assert forall|k: int| i <= k < s.len() implies !f.accepts(#[trigger] s[k]) by {
                    lemma_anchors_ascend(side, s, i as int, k);
                    assert(anchor_of(side, s[i as int]) >= anchor);
                }
                assert forall|k: int| 0 <= k < from implies !f.accepts(#[trigger] s[k]) by {
                    assert(anchor_of(side, s[k]) < anchor);
                }
                lemma_select_within(s, f, from as int, i as int);
                assert(s.subrange(from as int, i as int) =~= rest.take(i - from));
            }
            break;
        }
        let met = filter.test(&v[i]);
        proof {
            assert(rest[i - from] == s[i as int]);
            lemma_select_step(rest, f, true, i - from);
        }
        if met {
            count += 1;
        }
        i += 1;
    }
    count
}

} // verus!
