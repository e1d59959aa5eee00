//! Metadata: JSON values kept under a scope and a name, and the vector that
//! holds them.

use crate::models::{
    compare_types, incident, lemma_bytes_lt_irreflexive, EdgeKey, EdgeKeyView, Rank,
    Type,
};
use crate::seqs::{lemma_filter_holds, lemma_filter_none, lemma_filter_pairwise, lemma_filter_step, pairwise};
use serde_json::Value as JsonValue;
use vstd::prelude::*;

verus! {

/// `serde_json::Value`: a JSON value, kept and handed back as it is.
#[verifier::external_type_specification]
#[verifier::external_body]
pub struct ExJsonValue(JsonValue);

/// `Value::clone` makes a JSON value that is equal to the one it is given.
#[verifier::external_body]
fn clone_json(value: &JsonValue) -> (copy: JsonValue)
    ensures
        copy == *value,
{
    value.clone()
}

/// What a piece of metadata belongs to, as plain values.
pub enum ScopeView {
    Global,
    Account { id: u128 },
    Vertex { id: u128 },
    Edge { key: EdgeKeyView },
}

/// What a piece of metadata belongs to: the datastore as a whole, an
/// account, a vertex or an edge.
#[derive(Debug)]
pub enum Scope {
    Global,
    Account { id: u128 },
    Vertex { id: u128 },
    Edge { key: EdgeKey },
}

impl View for Scope {
    type V = ScopeView;

    open spec fn view(&self) -> ScopeView {
        match self {
            Scope::Global => ScopeView::Global,
            Scope::Account { id } => ScopeView::Account { id: *id },
            Scope::Vertex { id } => ScopeView::Vertex { id: *id },
            Scope::Edge { key } => ScopeView::Edge { key: key@ },
        }
    }
}

impl Scope {
    /// Whether two scopes are the same.
    pub fn same(&self, other: &Scope) -> (same: bool)
        ensures
            same == (self@ == other@),
    {
        match (self, other) {
            (Scope::Global, Scope::Global) => true,
            (Scope::Account { id: a }, Scope::Account { id: b }) => *a == *b,
            (Scope::Vertex { id: a }, Scope::Vertex { id: b }) => *a == *b,
            (Scope::Edge { key: a }, Scope::Edge { key: b }) => a.same(b),
            _ => false,
        }
    }

    /// A second scope that is the same.
    pub fn duplicate(&self) -> (copy: Scope)
        ensures
            copy@ == self@,
    {
        match self {
            Scope::Global => Scope::Global,
            Scope::Account { id } => Scope::Account { id: *id },
            Scope::Vertex { id } => Scope::Vertex { id: *id },
            Scope::Edge { key } => Scope::Edge { key: key.duplicate() },
        }
    }
}

/// Where a piece of metadata is kept: its scope and the octets of its name.
pub struct MetadataKeyView {
    pub scope: ScopeView,
    pub name: Seq<u8>,
}

/// A piece of metadata, as plain values.
pub struct EntryView {
    pub key: MetadataKeyView,
    pub value: JsonValue,
}

/// A piece of metadata: a JSON value under a scope and a name. The name is
/// a bounded text, as a type tag is.
pub struct MetadataEntry {
    pub scope: Scope,
    pub name: Type,
    pub value: JsonValue,
}

impl View for MetadataEntry {
    type V = EntryView;

    open spec fn view(&self) -> EntryView {
        EntryView {
            key: MetadataKeyView { scope: self.scope@, name: self.name@ },
            value: self.value,
        }
    }
}

/// Copies the value of an entry.
pub fn clone_json_value(entry: &MetadataEntry) -> (copy: JsonValue)
    ensures
        copy == entry.value,
{
    clone_json(&entry.value)
}

impl MetadataEntry {
    /// A second entry with the same scope, name and value.
    pub fn duplicate(&self) -> (copy: MetadataEntry)
        ensures
            copy@ == self@,
    {
        MetadataEntry {
            scope: self.scope.duplicate(),
            name: self.name.duplicate(),
            value: clone_json(&self.value),
        }
    }
}

/// The plain values of a sequence of entries.
pub open spec fn entry_views(s: Seq<MetadataEntry>) -> Seq<EntryView> {
    Seq::new(s.len(), |i: int| s[i]@)
}

/// The relation of being kept under different keys.
pub open spec fn apart() -> spec_fn(EntryView, EntryView) -> bool {
    |a: EntryView, b: EntryView| a.key != b.key
}

/// Whether no two entries of a sequence are kept under one key.
pub open spec fn keys_distinct(s: Seq<EntryView>) -> bool {
    pairwise(s, apart())
}

/// The map from key to value that a sequence of entries stands for.
pub open spec fn metadata_map(s: Seq<EntryView>) -> Map<MetadataKeyView, JsonValue> {
    Map::new(
        |key: MetadataKeyView| exists|i: int| 0 <= i < s.len() && (#[trigger] s[i]).key == key,
        |key: MetadataKeyView|
            s[choose|i: int| 0 <= i < s.len() && (#[trigger] s[i]).key == key].value,
    )
}

/// Where keys are distinct, the map holds a value under a key exactly when
/// the sequence holds that entry.
pub proof fn lemma_metadata_map_holds(s: Seq<EntryView>)
    requires
        keys_distinct(s),
    ensures
        forall|x: EntryView|
            (metadata_map(s).contains_key(x.key) && metadata_map(s)[x.key] == x.value)
                <==> #[trigger] s.contains(x),
{
    assert forall|x: EntryView|
        (metadata_map(s).contains_key(x.key) && metadata_map(s)[x.key] == x.value)
            <==> #[trigger] s.contains(x) by {
        if metadata_map(s).contains_key(x.key) && metadata_map(s)[x.key] == x.value {
            let i = choose|i: int| 0 <= i < s.len() && (#[trigger] s[i]).key == x.key;
            assert(s[i] == x);
        }
        if s.contains(x) {
            let k = choose|k: int| 0 <= k < s.len() && s[k] == x;
            assert(s[k].key == x.key);
            let i = choose|i: int| 0 <= i < s.len() && (#[trigger] s[i]).key == x.key;
            assert(i == k) by {
                if i < k {
                    assert(apart()(s[i], s[k]));
                }
                if k < i {
                    assert(apart()(s[k], s[i]));
                }
            }
        }
    }
}

/// A sequence of distinct keys stands for the map `m` when it holds exactly
/// the entries that `m` describes.
pub proof fn lemma_metadata_map_is(s: Seq<EntryView>, m: Map<MetadataKeyView, JsonValue>)
    requires
        keys_distinct(s),
        forall|x: EntryView|
            (m.contains_key(x.key) && m[x.key] == x.value) <==> #[trigger] s.contains(x),
    ensures
        metadata_map(s) == m,
{
    lemma_metadata_map_holds(s);
    let n = metadata_map(s);
    assert forall|key: MetadataKeyView| n.contains_key(key) <==> m.contains_key(key) by {
        if n.contains_key(key) {
            assert(s.contains(EntryView { key, value: n[key] }));
        }
        if m.contains_key(key) {
            assert(s.contains(EntryView { key, value: m[key] }));
        }
    }
    assert forall|key: MetadataKeyView| n.contains_key(key) implies n[key] == m[key] by {
        assert(s.contains(EntryView { key, value: n[key] }));
    }
    assert(n =~= m);
}

/// A choice of metadata keys, as plain values.
#[allow(inconsistent_fields)]
pub enum EntryFilterView {
    Entry { key: MetadataKeyView },
    OfEdge { key: EdgeKeyView },
    OfVertex { id: u128 },
}

impl EntryFilterView {
    /// Whether a key is among those chosen.
    pub open spec fn accepts(self, k: MetadataKeyView) -> bool {
        match self {
            EntryFilterView::Entry { key } => k == key,
            EntryFilterView::OfEdge { key } => k.scope == (ScopeView::Edge { key }),
            EntryFilterView::OfVertex { id } => match k.scope {
                ScopeView::Vertex { id: at } => at == id,
                ScopeView::Edge { key } => incident(key, id),
                _ => false,
            },
        }
    }

    /// The keys chosen.
    pub open spec fn keys(self) -> Set<MetadataKeyView> {
        Set::new(|k: MetadataKeyView| self.accepts(k))
    }
}

/// A choice of metadata keys.
#[derive(Debug)]
pub enum EntryFilter {
    /// The one key of a scope and a name.
    Entry { scope: Scope, name: Type },
    /// Every key in the scope of the edge `key`.
    OfEdge { key: EdgeKey },
    /// Every key in the scope of the vertex `id`, or in the scope of an edge
    /// that starts or ends at it.
    OfVertex { id: u128 },
}

impl View for EntryFilter {
    type V = EntryFilterView;

    open spec fn view(&self) -> EntryFilterView {
        match self {
            EntryFilter::Entry { scope, name } => EntryFilterView::Entry {
                key: MetadataKeyView { scope: scope@, name: name@ },
            },
            EntryFilter::OfEdge { key } => EntryFilterView::OfEdge { key: key@ },
            EntryFilter::OfVertex { id } => EntryFilterView::OfVertex { id: *id },
        }
    }
}

impl EntryFilter {
    /// Tells whether the key of an entry is among those chosen.
    pub fn test(&self, entry: &MetadataEntry) -> (met: bool)
        ensures
            met == self@.accepts(entry@.key),
    {
        match self {
            EntryFilter::Entry { scope, name } => {
                proof {
                    lemma_bytes_lt_irreflexive(name@);
                }
                entry.scope.same(scope) && matches!(compare_types(&entry.name, name), Rank::Same)
            },
            EntryFilter::OfEdge { key } => match &entry.scope {
                Scope::Edge { key: at } => at.same(key),
                _ => false,
            },
            EntryFilter::OfVertex { id } => match &entry.scope {
                Scope::Vertex { id: at } => *at == *id,
                Scope::Edge { key } => key.outbound_id == *id || key.inbound_id == *id,
                _ => false,
            },
        }
    }
}

/// The test that keeps the entries whose key is not among those chosen.
pub open spec fn spared(f: EntryFilterView) -> spec_fn(EntryView) -> bool {
    |x: EntryView| !f.accepts(x.key)
}

/// Taking the entries of chosen keys out of a sequence of distinct keys
/// leaves the keys distinct and takes those keys out of the map.
pub proof fn lemma_spared_map(s: Seq<EntryView>, f: EntryFilterView)
    requires
        keys_distinct(s),
    ensures
        keys_distinct(s.filter(spared(f))),
        metadata_map(s.filter(spared(f))) == metadata_map(s).remove_keys(f.keys()),
        forall|x: EntryView| #[trigger]
            s.filter(spared(f)).contains(x) <==> s.contains(x) && !f.accepts(x.key),
{
    let kept = s.filter(spared(f));
    lemma_filter_pairwise(s, spared(f), apart());
    lemma_filter_holds(s, spared(f));
    lemma_metadata_map_holds(s);
    let m = metadata_map(s).remove_keys(f.keys());
    assert forall|x: EntryView|
        (m.contains_key(x.key) && m[x.key] == x.value) <==> #[trigger] kept.contains(x) by {
        assert(kept.contains(x) <==> s.contains(x) && spared(f)(x));
    }
    lemma_metadata_map_is(kept, m);
    assert forall|x: EntryView| #[trigger]
        kept.contains(x) <==> s.contains(x) && !f.accepts(x.key) by {
        assert(kept.contains(x) <==> s.contains(x) && spared(f)(x));
    }
}

/// Copies out, in their order, the entries whose key is not among those
/// chosen.
pub fn without_entries(v: &Vec<MetadataEntry>, f: &EntryFilter) -> (kept: Vec<MetadataEntry>)
    ensures
        entry_views(kept@) == entry_views(v@).filter(spared(f@)),
{
    let ghost s = entry_views(v@);
    let mut kept: Vec<MetadataEntry> = Vec::new();
    let mut i: usize = 0;
    proof {
        lemma_filter_none(s, spared(f@));
        assert(entry_views(kept@) =~= Seq::<EntryView>::empty());
    }
    while i < v.len()
        invariant
            i <= v@.len(),
            s == entry_views(v@),
            entry_views(kept@) == s.take(i as int).filter(spared(f@)),
        decreases v@.len() - i,
    {
        let met = f.test(&v[i]);
        proof {
            lemma_filter_step(s, spared(f@), i as int);
            assert(s[i as int] == v@[i as int]@);
        }
        if !met {
            let ghost before = entry_views(kept@);
            kept.push(v[i].duplicate());
            assert(entry_views(kept@) =~= before.push(v@[i as int]@));
        }
        i += 1;
    }
    proof {
        assert(s.take(v@.len() as int) =~= s);
    }
    kept
}

/// Where the entry of a scope and a name stands in a vector, if the vector
/// holds one.
pub fn find_entry(v: &Vec<MetadataEntry>, scope: &Scope, name: &Type) -> (found: Option<usize>)
    ensures
        found matches Some(at) ==> at < v@.len() && entry_views(v@)[at as int].key == (
        MetadataKeyView { scope: scope@, name: name@ }),
        found is None ==> forall|i: int|
            0 <= i < v@.len() ==> (#[trigger] entry_views(v@)[i]).key != (MetadataKeyView {
                scope: scope@,
                name: name@,
            }),
{
    let mut at: usize = 0;
    while at < v.len()
        invariant
            at <= v@.len(),
            forall|i: int|
                0 <= i < at ==> (#[trigger] entry_views(v@)[i]).key != (MetadataKeyView {
                    scope: scope@,
                    name: name@,
                }),
        decreases v@.len() - at,
    {
        assert(entry_views(v@)[at as int] == v@[at as int]@);
        proof {
            lemma_bytes_lt_irreflexive(name@);
        }
        if v[at].scope.same(scope) && matches!(compare_types(&v[at].name, name), Rank::Same) {
            return Some(at);
        }
        at += 1;
    }
    None
}

/// Keeps a value under a scope and a name, in place of the value kept there
/// before, if there was one.
pub fn put_entry(v: &mut Vec<MetadataEntry>, scope: Scope, name: Type, value: JsonValue)
    requires
        keys_distinct(entry_views(old(v)@)),
    ensures
        keys_distinct(entry_views(final(v)@)),
        metadata_map(entry_views(final(v)@)) == metadata_map(entry_views(old(v)@)).insert(
            MetadataKeyView { scope: scope@, name: name@ },
            value,
        ),
{
    let ghost before = entry_views(v@);
    let ghost key = MetadataKeyView { scope: scope@, name: name@ };
    let ghost added = EntryView { key, value };
    let filter = EntryFilter::Entry { scope: scope.duplicate(), name: name.duplicate() };
    let mut kept = without_entries(v, &filter);
    let ghost middle = entry_views(kept@);
    kept.push(MetadataEntry { scope, name, value });
    *v = kept;
    proof {
        let after = entry_views(v@);
        lemma_spared_map(before, filter@);
        assert(after =~= middle.push(added));
        assert forall|i: int, j: int| 0 <= i < j < after.len() implies apart()(
            #[trigger] after[i],
            #[trigger] after[j],
        ) by {
            if j < middle.len() {
                assert(apart()(middle[i], middle[j]));
            } else {
                assert(middle.contains(middle[i]));
            }
        }
        lemma_metadata_map_holds(before);
        let m = metadata_map(before).insert(key, value);
        assert forall|x: EntryView|
            (m.contains_key(x.key) && m[x.key] == x.value) <==> #[trigger] after.contains(x) by {
            assert(middle.contains(x) <==> before.contains(x) && !filter@.accepts(x.key));
            if after.contains(x) {
                let k = choose|k: int| 0 <= k < after.len() && after[k] == x;
                if k < middle.len() {
                    assert(middle[k] == x);
                }
            }
            if middle.contains(x) {
                let k = choose|k: int| 0 <= k < middle.len() && middle[k] == x;
                assert(after[k] == x);
            }
            if x == added {
                assert(after[middle.len() as int] == x);
            }
        }
        lemma_metadata_map_is(after, m);
    }
}

} // verus!
