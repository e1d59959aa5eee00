//! The batch protocol: an ordered list of actions is run against one
//! transaction, one after the other, until the first that fails.

use crate::errors::{Error, ValidationError};
use crate::index::{edge_views, page, IndexKind};
use crate::memory::{edge_of, MemoryDatastore};
use crate::metadata::{MetadataKeyView, Scope, ScopeView};
use crate::models::{
    weight_in_range, Edge, EdgeKey, EdgeKeyView, EdgeView, Type, Vertex,
    VertexView, Weight,
};
use crate::transaction::{
    edge_deleted, edge_set, metadata_deleted, metadata_set, selected, vertex_created,
    vertex_deleted, vertex_set, MemoryTransaction,
};
use crate::util::{ascii_text, lemma_ascii_is_utf8, string_from_utf8};
use crate::vertices::{vertex_page, vertex_views};
use vstd::string::StringExecFns;
use serde_json::Value as JsonValue;
use vstd::prelude::*;
use vstd::utf8::encode_utf8;

verus! {

/// The scope that a metadata action names, as plain values.
pub enum ScopeRequestView {
    Global,
    Account,
    Vertex { id: u128 },
    Edge { outbound_id: u128, t: Seq<u8>, inbound_id: u128 },
}

/// The scope that a metadata action names. The account is that of the
/// transaction, and the type tag of an edge is as it came, not yet checked.
#[derive(Debug)]
pub enum ScopeRequest {
    Global,
    Account,
    Vertex { id: u128 },
    Edge { outbound_id: u128, t: String, inbound_id: u128 },
}

impl View for ScopeRequest {
    type V = ScopeRequestView;

    open spec fn view(&self) -> ScopeRequestView {
        match self {
            ScopeRequest::Global => ScopeRequestView::Global,
            ScopeRequest::Account => ScopeRequestView::Account,
            ScopeRequest::Vertex { id } => ScopeRequestView::Vertex { id: *id },
            ScopeRequest::Edge { outbound_id, t, inbound_id } => ScopeRequestView::Edge {
                outbound_id: *outbound_id,
                t: encode_utf8(t@),
                inbound_id: *inbound_id,
            },
        }
    }
}

/// An action, as plain values. Texts are given by their octets.
#[allow(inconsistent_fields)]
pub enum ActionView {
    GetVertex { id: u128 },
    GetVertexRange { start_id: u128, limit: u16 },
    CreateVertex { t: Seq<u8> },
    SetVertex { id: u128, t: Seq<u8> },
    DeleteVertex { id: u128 },
    GetEdge { outbound_id: u128, t: Seq<u8>, inbound_id: u128 },
    SetEdge { outbound_id: u128, t: Seq<u8>, inbound_id: u128, weight: u32 },
    DeleteEdge { outbound_id: u128, t: Seq<u8>, inbound_id: u128 },
    Count { side: IndexKind, anchor: u128, t: Option<Seq<u8>> },
    Range { side: IndexKind, anchor: u128, t: Option<Seq<u8>>, offset: u64, limit: u16 },
    TimeRange {
        side: IndexKind,
        anchor: u128,
        t: Option<Seq<u8>>,
        high: Option<u64>,
        low: Option<u64>,
        limit: u16,
    },
    GetMetadata { scope: ScopeRequestView, key: Seq<u8> },
    SetMetadata { scope: ScopeRequestView, key: Seq<u8>, value: JsonValue },
    DeleteMetadata { scope: ScopeRequestView, key: Seq<u8> },
}

/// One action of a batch. Identifiers and times are numbers; type tags and
/// metadata names are texts as they came, not yet checked; a weight is the
/// bit pattern of a single-precision number, not yet checked; a time is in
/// nanoseconds since the epoch.
#[derive(Debug)]
#[allow(inconsistent_fields)]
pub enum Action {
    GetVertex { id: u128 },
    GetVertexRange { start_id: u128, limit: u16 },
    CreateVertex { t: String },
    SetVertex { id: u128, t: String },
    DeleteVertex { id: u128 },
    GetEdge { outbound_id: u128, t: String, inbound_id: u128 },
    SetEdge { outbound_id: u128, t: String, inbound_id: u128, weight: u32 },
    DeleteEdge { outbound_id: u128, t: String, inbound_id: u128 },
    GetEdgeCount { outbound_id: u128, t: Option<String> },
    GetEdgeRange { outbound_id: u128, t: Option<String>, offset: u64, limit: u16 },
    GetEdgeTimeRange {
        outbound_id: u128,
        t: Option<String>,
        high: Option<u64>,
        low: Option<u64>,
        limit: u16,
    },
    GetReversedEdgeCount { inbound_id: u128, t: Option<String> },
    GetReversedEdgeRange { inbound_id: u128, t: Option<String>, offset: u64, limit: u16 },
    GetReversedEdgeTimeRange {
        inbound_id: u128,
        t: Option<String>,
        high: Option<u64>,
        low: Option<u64>,
        limit: u16,
    },
    GetMetadata { scope: ScopeRequest, key: String },
    SetMetadata { scope: ScopeRequest, key: String, value: JsonValue },
    DeleteMetadata { scope: ScopeRequest, key: String },
}

/// The octets of an optional text.
pub open spec fn optional_octets(t: Option<String>) -> Option<Seq<u8>> {
    match t {
        Some(text) => Some(encode_utf8(text@)),
        None => None,
    }
}

impl View for Action {
    type V = ActionView;

    open spec fn view(&self) -> ActionView {
        match self {
            Action::GetVertex { id } => ActionView::GetVertex { id: *id },
            Action::GetVertexRange { start_id, limit } => ActionView::GetVertexRange {
                start_id: *start_id,
                limit: *limit,
            },
            Action::CreateVertex { t } => ActionView::CreateVertex { t: encode_utf8(t@) },
            Action::SetVertex { id, t } => ActionView::SetVertex { id: *id, t: encode_utf8(t@) },
            Action::DeleteVertex { id } => ActionView::DeleteVertex { id: *id },
            Action::GetEdge { outbound_id, t, inbound_id } => ActionView::GetEdge {
                outbound_id: *outbound_id,
                t: encode_utf8(t@),
                inbound_id: *inbound_id,
            },
            Action::SetEdge { outbound_id, t, inbound_id, weight } => ActionView::SetEdge {
                outbound_id: *outbound_id,
                t: encode_utf8(t@),
                inbound_id: *inbound_id,
                weight: *weight,
            },
            Action::DeleteEdge { outbound_id, t, inbound_id } => ActionView::DeleteEdge {
                outbound_id: *outbound_id,
                t: encode_utf8(t@),
                inbound_id: *inbound_id,
            },
            Action::GetEdgeCount { outbound_id, t } => ActionView::Count {
                side: IndexKind::Outbound,
                anchor: *outbound_id,
                t: optional_octets(*t),
            },
            Action::GetEdgeRange { outbound_id, t, offset, limit } => ActionView::Range {
                side: IndexKind::Outbound,
                anchor: *outbound_id,
                t: optional_octets(*t),
                offset: *offset,
                limit: *limit,
            },
            Action::GetEdgeTimeRange { outbound_id, t, high, low, limit } => ActionView::TimeRange {
                side: IndexKind::Outbound,
                anchor: *outbound_id,
                t: optional_octets(*t),
                high: *high,
                low: *low,
                limit: *limit,
            },
            Action::GetReversedEdgeCount { inbound_id, t } => ActionView::Count {
                side: IndexKind::Inbound,
                anchor: *inbound_id,
                t: optional_octets(*t),
            },
            Action::GetReversedEdgeRange { inbound_id, t, offset, limit } => ActionView::Range {
                side: IndexKind::Inbound,
                anchor: *inbound_id,
                t: optional_octets(*t),
                offset: *offset,
                limit: *limit,
            },
            Action::GetReversedEdgeTimeRange {
                inbound_id,
                t,
                high,
                low,
                limit,
            } => ActionView::TimeRange {
                side: IndexKind::Inbound,
                anchor: *inbound_id,
                t: optional_octets(*t),
                high: *high,
                low: *low,
                limit: *limit,
            },
            Action::GetMetadata { scope, key } => ActionView::GetMetadata {
                scope: scope@,
                key: encode_utf8(key@),
            },
            Action::SetMetadata { scope, key, value } => ActionView::SetMetadata {
                scope: scope@,
                key: encode_utf8(key@),
                value: *value,
            },
            Action::DeleteMetadata { scope, key } => ActionView::DeleteMetadata {
                scope: scope@,
                key: encode_utf8(key@),
            },
        }
    }
}

impl ActionView {
    /// Whether the action only reads: it cannot change the datastore.
    pub open spec fn reads(self) -> bool {
        match self {
            ActionView::GetVertex { .. } => true,
            ActionView::GetVertexRange { .. } => true,
            ActionView::GetEdge { .. } => true,
            ActionView::Count { .. } => true,
            ActionView::Range { .. } => true,
            ActionView::TimeRange { .. } => true,
            ActionView::GetMetadata { .. } => true,
            _ => false,
        }
    }
}

impl Action {
    /// Tells whether the action only reads.
    pub fn is_read(&self) -> (reads: bool)
        ensures
            reads == self@.reads(),
    {
        match self {
            Action::CreateVertex { .. } => false,
            Action::SetVertex { .. } => false,
            Action::DeleteVertex { .. } => false,
            Action::SetEdge { .. } => false,
            Action::DeleteEdge { .. } => false,
            Action::SetMetadata { .. } => false,
            Action::DeleteMetadata { .. } => false,
            _ => true,
        }
    }
}

/// What an action returns, as plain values.
pub enum ResultView {
    Null,
    Id(u128),
    Vertex(VertexView),
    Vertices(Seq<VertexView>),
    Edge(EdgeView),
    Edges(Seq<EdgeView>),
    Count(u64),
    Json(JsonValue),
}

/// What an action returns. An action that returns nothing gives `Null`.
#[derive(Debug)]
pub enum ActionResult {
    Null,
    Id(u128),
    Vertex(Vertex),
    Vertices(Vec<Vertex>),
    Edge(Edge),
    Edges(Vec<Edge>),
    Count(u64),
    Json(JsonValue),
}

impl View for ActionResult {
    type V = ResultView;

    open spec fn view(&self) -> ResultView {
        match self {
            ActionResult::Null => ResultView::Null,
            ActionResult::Id(id) => ResultView::Id(*id),
            ActionResult::Vertex(v) => ResultView::Vertex(v@),
            ActionResult::Vertices(vs) => ResultView::Vertices(vertex_views(vs@)),
            ActionResult::Edge(e) => ResultView::Edge(e@),
            ActionResult::Edges(es) => ResultView::Edges(edge_views(es@)),
            ActionResult::Count(n) => ResultView::Count(*n),
            ActionResult::Json(value) => ResultView::Json(*value),
        }
    }
}

/// How an action ended, as plain values.
pub open spec fn outcome_view(outcome: Result<ActionResult, Error>) -> Result<ResultView, Error> {
    match outcome {
        Ok(result) => Ok(result@),
        Err(e) => Err(e),
    }
}

/// The check of a text that is to be a type tag or a metadata name: the
/// error it fails with, if it fails.
pub open spec fn name_error(octets: Seq<u8>) -> Option<Error> {
    if octets.len() == 0 {
        Some(Error::InvalidValue)
    } else if octets.len() > 255 {
        Some(Error::ValueTooLong)
    } else {
        None
    }
}

/// The check of an optional type tag: none passes.
pub open spec fn optional_name_error(octets: Option<Seq<u8>>) -> Option<Error> {
    match octets {
        Some(t) => name_error(t),
        None => None,
    }
}

/// The check of a weight: the error it fails with, if it fails.
pub open spec fn weight_error(bits: u32) -> Option<Error> {
    if weight_in_range(bits) {
        None
    } else {
        Some(Error::InvalidValue)
    }
}

/// The check of a scope: the error it fails with, if it fails. Only the
/// type tag of an edge can fail.
pub open spec fn scope_error(scope: ScopeRequestView) -> Option<Error> {
    match scope {
        ScopeRequestView::Edge { t, .. } => name_error(t),
        _ => None,
    }
}

/// The scope that a request names for a transaction of the given account.
pub open spec fn resolve_scope(scope: ScopeRequestView, account: u128) -> ScopeView {
    match scope {
        ScopeRequestView::Global => ScopeView::Global,
        ScopeRequestView::Account => ScopeView::Account { id: account },
        ScopeRequestView::Vertex { id } => ScopeView::Vertex { id },
        ScopeRequestView::Edge { outbound_id, t, inbound_id } => ScopeView::Edge {
            key: EdgeKeyView { outbound_id, t, inbound_id },
        },
    }
}

/// The first check that an action fails, if it fails one: the type tag
/// first, then the weight; for metadata the scope first, then the name.
pub open spec fn check_error(action: ActionView) -> Option<Error> {
    match action {
        ActionView::CreateVertex { t } => name_error(t),
        ActionView::SetVertex { t, .. } => name_error(t),
        ActionView::GetEdge { t, .. } => name_error(t),
        ActionView::SetEdge { t, weight, .. } => if name_error(t) is Some {
            name_error(t)
        } else {
            weight_error(weight)
        },
        ActionView::DeleteEdge { t, .. } => name_error(t),
        ActionView::Count { t, .. } => optional_name_error(t),
        ActionView::Range { t, .. } => optional_name_error(t),
        ActionView::TimeRange { t, .. } => optional_name_error(t),
        ActionView::GetMetadata { scope, key } => if scope_error(scope) is Some {
            scope_error(scope)
        } else {
            name_error(key)
        },
        ActionView::SetMetadata { scope, key, .. } => if scope_error(scope) is Some {
            scope_error(scope)
        } else {
            name_error(key)
        },
        ActionView::DeleteMetadata { scope, key } => if scope_error(scope) is Some {
            scope_error(scope)
        } else {
            name_error(key)
        },
        _ => None,
    }
}

/// What an action that passes its checks owes, for a transaction of the
/// given account: how the datastore after it stands to the datastore before
/// it, and what it returns.
pub open spec fn applies(
    before: MemoryDatastore,
    account: u128,
    action: ActionView,
    after: MemoryDatastore,
    outcome: Result<ResultView, Error>,
) -> bool {
    match action {
        ActionView::GetVertex { id } => after == before && outcome == if before@.vertices.contains_key(
            id,
        ) {
            Ok::<ResultView, Error>(
                ResultView::Vertex(VertexView { id, t: before@.vertices[id] }),
            )
        } else {
            Err::<ResultView, Error>(Error::VertexNotFound)
        },
        ActionView::GetVertexRange { start_id, limit } => after == before && outcome == Ok::<
            ResultView,
            Error,
        >(ResultView::Vertices(vertex_page(before.vertex_index(), start_id, limit as int))),
        ActionView::CreateVertex { t } => match outcome {
            Ok(ResultView::Id(id)) => vertex_created(before, t, after, Ok(id)),
            Ok(_) => false,
            Err(e) => vertex_created(before, t, after, Err(e)),
        },
        ActionView::SetVertex { id, t } => vertex_set(before, id, t, after) && outcome == Ok::<
            ResultView,
            Error,
        >(ResultView::Null),
        ActionView::DeleteVertex { id } => vertex_deleted(before, id, after) && outcome == Ok::<
            ResultView,
            Error,
        >(ResultView::Null),
        ActionView::GetEdge { outbound_id, t, inbound_id } => {
            let key = EdgeKeyView { outbound_id, t, inbound_id };
            after == before && outcome == if before@.edges.contains_key(key) {
                Ok::<ResultView, Error>(ResultView::Edge(edge_of(key, before@.edges[key])))
            } else {
                Err::<ResultView, Error>(before@.edge_missing(key))
            }
        },
        ActionView::SetEdge { outbound_id, t, inbound_id, weight } => {
            let key = EdgeKeyView { outbound_id, t, inbound_id };
            match outcome {
                Ok(ResultView::Null) => edge_set(before, key, weight, after, Ok(())),
                Ok(_) => false,
                Err(e) => edge_set(before, key, weight, after, Err(e)),
            }
        },
        ActionView::DeleteEdge { outbound_id, t, inbound_id } => edge_deleted(
            before,
            EdgeKeyView { outbound_id, t, inbound_id },
            after,
        ) && outcome == Ok::<ResultView, Error>(ResultView::Null),
        ActionView::Count { side, anchor, t } => after == before && outcome == Ok::<
            ResultView,
            Error,
        >(ResultView::Count(selected(before, side, anchor, t, None, None).len() as u64)),
        ActionView::Range { side, anchor, t, offset, limit } => after == before && outcome == Ok::<
            ResultView,
            Error,
        >(
            ResultView::Edges(
                page(selected(before, side, anchor, t, None, None), offset as int, limit as int),
            ),
        ),
        ActionView::TimeRange { side, anchor, t, high, low, limit } => after == before && outcome
            == Ok::<ResultView, Error>(
            ResultView::Edges(page(selected(before, side, anchor, t, high, low), 0, limit as int)),
        ),
        ActionView::GetMetadata { scope, key } => {
            let at = MetadataKeyView { scope: resolve_scope(scope, account), name: key };
            after == before && outcome == if before@.metadata.contains_key(at) {
                Ok::<ResultView, Error>(ResultView::Json(before@.metadata[at]))
            } else {
                Err::<ResultView, Error>(Error::MetadataNotFound)
            }
        },
        ActionView::SetMetadata { scope, key, value } => {
            let at = MetadataKeyView { scope: resolve_scope(scope, account), name: key };
            match outcome {
                Ok(ResultView::Null) => metadata_set(before, at, value, after, Ok(())),
                Ok(_) => false,
                Err(e) => metadata_set(before, at, value, after, Err(e)),
            }
        },
        ActionView::DeleteMetadata { scope, key } => metadata_deleted(
            before,
            MetadataKeyView { scope: resolve_scope(scope, account), name: key },
            after,
        ) && outcome == Ok::<ResultView, Error>(ResultView::Null),
    }
}

/// What one action of a batch owes. An action that fails a check changes
/// nothing and ends with the error of that check; any other does what
/// `applies` says.
pub open spec fn performs(
    before: MemoryDatastore,
    account: u128,
    action: ActionView,
    after: MemoryDatastore,
    outcome: Result<ResultView, Error>,
) -> bool {
    match check_error(action) {
        Some(e) => after == before && outcome == Err::<ResultView, Error>(e),
        None => applies(before, account, action, after, outcome),
    }
}

/// Checks a text and makes a type tag or a metadata name of it.
pub fn checked_name(raw: String) -> (made: Result<Type, Error>)
    ensures
        match made {
            Ok(t) => name_error(encode_utf8(raw@)) is None && t@ == encode_utf8(raw@),
            Err(e) => name_error(encode_utf8(raw@)) == Some(e),
        },
{
    match Type::new(raw) {
        Ok(t) => Ok(t),
        Err(ValidationError::ValueTooLong) => Err(Error::ValueTooLong),
        Err(_) => Err(Error::InvalidValue),
    }
}

/// Checks an optional text and makes a type tag of it where there is one.
pub fn checked_optional_name(raw: Option<String>) -> (made: Result<Option<Type>, Error>)
    ensures
        match made {
            Ok(t) => optional_name_error(optional_octets(raw)) is None && crate::memory::tag_view(
                t,
            ) == optional_octets(raw),
            Err(e) => optional_name_error(optional_octets(raw)) == Some(e),
        },
{
    match raw {
        Some(text) => match checked_name(text) {
            Ok(t) => Ok(Some(t)),
            Err(e) => Err(e),
        },
        None => Ok(None),
    }
}

/// Checks the scope that a request names and resolves it for a
/// transaction.
pub fn checked_scope(txn: &MemoryTransaction, raw: ScopeRequest) -> (made: Result<Scope, Error>)
    ensures
        match made {
            Ok(scope) => scope_error(raw@) is None && scope@ == resolve_scope(raw@, txn.account()),
            Err(e) => scope_error(raw@) == Some(e),
        },
{
    match raw {
        ScopeRequest::Global => Ok(Scope::Global),
        ScopeRequest::Account => Ok(txn.account_scope()),
        ScopeRequest::Vertex { id } => Ok(Scope::Vertex { id }),
        ScopeRequest::Edge { outbound_id, t, inbound_id } => match checked_name(t) {
            Ok(tag) => Ok(Scope::Edge { key: EdgeKey::new(outbound_id, tag, inbound_id) }),
            Err(e) => Err(e),
        },
    }
}

/// Performs one action that only reads, on behalf of a transaction: checks
/// its texts, and where they pass, hands it to the transaction. The
/// datastore stays as it is.
pub fn perform_read(txn: &MemoryTransaction, store: &MemoryDatastore, action: Action) -> (outcome:
    Result<ActionResult, Error>)
    requires
        store.wf(),
        action@.reads(),
    ensures
        performs(*store, txn.account(), action@, *store, outcome_view(outcome)),
{
    match action {
        Action::GetVertex { id } => match txn.get_vertex(store, id) {
            Ok(v) => Ok(ActionResult::Vertex(v)),
            Err(e) => Err(e),
        },
        Action::GetVertexRange { start_id, limit } => match txn.get_vertex_range(
            store,
            start_id,
            limit,
        ) {
            Ok(vs) => Ok(ActionResult::Vertices(vs)),
            Err(e) => Err(e),
        },
        Action::GetEdge { outbound_id, t, inbound_id } => {
            let tag = match checked_name(t) {
                Ok(tag) => tag,
                Err(e) => {
                    return Err(e);
                },
            };
            match txn.get_edge(store, &EdgeKey::new(outbound_id, tag, inbound_id)) {
                Ok(e) => Ok(ActionResult::Edge(e)),
                Err(e) => Err(e),
            }
        },
        Action::GetEdgeCount { outbound_id, t } => {
            let tag = match checked_optional_name(t) {
                Ok(tag) => tag,
                Err(e) => {
                    return Err(e);
                },
            };
            match txn.get_edge_count(store, outbound_id, tag) {
                Ok(count) => Ok(ActionResult::Count(count)),
                Err(e) => Err(e),
            }
        },
        Action::GetEdgeRange { outbound_id, t, offset, limit } => {
            let tag = match checked_optional_name(t) {
                Ok(tag) => tag,
                Err(e) => {
                    return Err(e);
                },
            };
            match txn.get_edge_range(store, outbound_id, tag, offset, limit) {
                Ok(es) => Ok(ActionResult::Edges(es)),
                Err(e) => Err(e),
            }
        },
        Action::GetEdgeTimeRange { outbound_id, t, high, low, limit } => {
            let tag = match checked_optional_name(t) {
                Ok(tag) => tag,
                Err(e) => {
                    return Err(e);
                },
            };
            match txn.get_edge_time_range(store, outbound_id, tag, high, low, limit) {
                Ok(es) => Ok(ActionResult::Edges(es)),
                Err(e) => Err(e),
            }
        },
        Action::GetReversedEdgeCount { inbound_id, t } => {
            let tag = match checked_optional_name(t) {
                Ok(tag) => tag,
                Err(e) => {
                    return Err(e);
                },
            };
            match txn.get_reversed_edge_count(store, inbound_id, tag) {
                Ok(count) => Ok(ActionResult::Count(count)),
                Err(e) => Err(e),
            }
        },
        Action::GetReversedEdgeRange { inbound_id, t, offset, limit } => {
            let tag = match checked_optional_name(t) {
                Ok(tag) => tag,
                Err(e) => {
                    return Err(e);
                },
            };
            match txn.get_reversed_edge_range(store, inbound_id, tag, offset, limit) {
                Ok(es) => Ok(ActionResult::Edges(es)),
                Err(e) => Err(e),
            }
        },
        Action::GetReversedEdgeTimeRange { inbound_id, t, high, low, limit } => {
            let tag = match checked_optional_name(t) {
                Ok(tag) => tag,
                Err(e) => {
                    return Err(e);
                },
            };
            match txn.get_reversed_edge_time_range(store, inbound_id, tag, high, low, limit) {
                Ok(es) => Ok(ActionResult::Edges(es)),
                Err(e) => Err(e),
            }
        },
        Action::GetMetadata { scope, key } => {
            let scope = match checked_scope(txn, scope) {
                Ok(scope) => scope,
                Err(e) => {
                    return Err(e);
                },
            };
            let name = match checked_name(key) {
                Ok(name) => name,
                Err(e) => {
                    return Err(e);
                },
            };
            match txn.get_metadata(store, &scope, &name) {
                Ok(value) => Ok(ActionResult::Json(value)),
                Err(e) => Err(e),
            }
        },
        // No other action only reads.
        _ => Err(Error::Unsupported),
    }
}

/// Performs one action on behalf of a transaction: checks its texts and
/// its weight, and where they pass, hands it to the transaction.
pub fn perform(txn: &MemoryTransaction, store: &mut MemoryDatastore, action: Action) -> (outcome:
    Result<ActionResult, Error>)
    requires
        old(store).wf(),
    ensures
        final(store).wf(),
        action@.reads() ==> *final(store) == *old(store),
        performs(*old(store), txn.account(), action@, *final(store), outcome_view(outcome)),
{
    if action.is_read() {
        return perform_read(txn, store, action);
    }
    match action {
        Action::CreateVertex { t } => {
            let tag = match checked_name(t) {
                Ok(tag) => tag,
                Err(e) => {
                    return Err(e);
                },
            };
            match txn.create_vertex(store, tag) {
                Ok(id) => Ok(ActionResult::Id(id)),
                Err(e) => Err(e),
            }
        },
        Action::SetVertex { id, t } => {
            let tag = match checked_name(t) {
                Ok(tag) => tag,
                Err(e) => {
                    return Err(e);
                },
            };
            match txn.set_vertex(store, Vertex::new(id, tag)) {
                Ok(()) => Ok(ActionResult::Null),
                Err(e) => Err(e),
            }
        },
        Action::DeleteVertex { id } => match txn.delete_vertex(store, id) {
            Ok(()) => Ok(ActionResult::Null),
            Err(e) => Err(e),
        },
        Action::SetEdge { outbound_id, t, inbound_id, weight } => {
            let tag = match checked_name(t) {
                Ok(tag) => tag,
                Err(e) => {
                    return Err(e);
                },
            };
            let weight = match Weight::new(weight) {
                Ok(weight) => weight,
                Err(_) => {
                    return Err(Error::InvalidValue);
                },
            };
            match txn.set_edge(store, EdgeKey::new(outbound_id, tag, inbound_id), weight) {
                Ok(()) => Ok(ActionResult::Null),
                Err(e) => Err(e),
            }
        },
        Action::DeleteEdge { outbound_id, t, inbound_id } => {
            let tag = match checked_name(t) {
                Ok(tag) => tag,
                Err(e) => {
                    return Err(e);
                },
            };
            match txn.delete_edge(store, &EdgeKey::new(outbound_id, tag, inbound_id)) {
                Ok(()) => Ok(ActionResult::Null),
                Err(e) => Err(e),
            }
        },
        Action::SetMetadata { scope, key, value } => {
            let scope = match checked_scope(txn, scope) {
                Ok(scope) => scope,
                Err(e) => {
                    return Err(e);
                },
            };
            let name = match checked_name(key) {
                Ok(name) => name,
                Err(e) => {
                    return Err(e);
                },
            };
            match txn.set_metadata(store, scope, name, value) {
                Ok(()) => Ok(ActionResult::Null),
                Err(e) => Err(e),
            }
        },
        Action::DeleteMetadata { scope, key } => {
            let scope = match checked_scope(txn, scope) {
                Ok(scope) => scope,
                Err(e) => {
                    return Err(e);
                },
            };
            let name = match checked_name(key) {
                Ok(name) => name,
                Err(e) => {
                    return Err(e);
                },
            };
            match txn.delete_metadata(store, &scope, &name) {
                Ok(()) => Ok(ActionResult::Null),
                Err(e) => Err(e),
            }
        },
        // Every other action only reads.
        _ => Err(Error::Unsupported),
    }
}

/// The plain values of a sequence of actions.
pub open spec fn action_views(actions: Seq<Action>) -> Seq<ActionView> {
    Seq::new(actions.len(), |i: int| actions[i]@)
}

/// The plain values of a sequence of results.
pub open spec fn result_views(results: Seq<ActionResult>) -> Seq<ResultView> {
    Seq::new(results.len(), |i: int| results[i]@)
}

/// Whether `states` and `outcomes` record a run of the first actions of a
/// batch: each action takes the datastore from one state to the next and
/// ends as recorded, and all but the last of them succeed.
pub open spec fn run_of(
    account: u128,
    actions: Seq<ActionView>,
    states: Seq<MemoryDatastore>,
    outcomes: Seq<Result<ResultView, Error>>,
) -> bool {
    &&& outcomes.len() <= actions.len()
    &&& states.len() == outcomes.len() + 1
    &&& forall|i: int|
        0 <= i < outcomes.len() ==> #[trigger] performs(
            states[i],
            account,
            actions[i],
            states[i + 1],
            outcomes[i],
        )
    &&& forall|i: int| 0 <= i < outcomes.len() - 1 ==> (#[trigger] outcomes[i]) is Ok
}

/// A run grows by one action: where the actions so far all succeeded and
/// the next one takes the last state to `next` and ends as `outcome`, the
/// longer record is a run too.
pub proof fn lemma_run_grows(
    account: u128,
    actions: Seq<ActionView>,
    states: Seq<MemoryDatastore>,
    outcomes: Seq<Result<ResultView, Error>>,
    next: MemoryDatastore,
    outcome: Result<ResultView, Error>,
)
    requires
        run_of(account, actions, states, outcomes),
        outcomes.len() < actions.len(),
        forall|i: int| 0 <= i < outcomes.len() ==> (#[trigger] outcomes[i]) is Ok,
        performs(states.last(), account, actions[outcomes.len() as int], next, outcome),
    ensures
        run_of(account, actions, states.push(next), outcomes.push(outcome)),
        states.push(next)[0] == states[0],
{
    let grown = states.push(next);
    let ended = outcomes.push(outcome);
    assert forall|i: int| 0 <= i < ended.len() implies #[trigger] performs(
        grown[i],
        account,
        actions[i],
        grown[i + 1],
        ended[i],
    ) by {
        if i < outcomes.len() {
            assert(performs(states[i], account, actions[i], states[i + 1], outcomes[i]));
        }
    }
    assert forall|i: int| 0 <= i < ended.len() - 1 implies (#[trigger] ended[i]) is Ok by {
        assert(outcomes[i] is Ok);
    }
}

/// A batch that stopped: the place of the action that failed, counted from
/// zero, and its error.
#[derive(Debug)]
pub struct BatchError {
    pub index: usize,
    pub error: Error,
}

/// What a batch owes. The actions run in their order from the datastore
/// `before`, each on what the one before it left, and the batch stops at
/// the first that fails; `after` is what the last action that ran left. A
/// batch in which none fails returns the result of each action, in order;
/// one that stops returns the place and the error of the action that
/// failed, and what the actions before it did stays done.
pub open spec fn batch_runs(
    before: MemoryDatastore,
    account: u128,
    actions: Seq<ActionView>,
    after: MemoryDatastore,
    done: Result<Seq<ResultView>, (int, Error)>,
) -> bool {
    exists|states: Seq<MemoryDatastore>, outcomes: Seq<Result<ResultView, Error>>|
        {
            &&& #[trigger] run_of(account, actions, states, outcomes)
            &&& states[0] == before
            &&& states.last() == after
            &&& match done {
                Ok(results) => {
                    &&& outcomes.len() == actions.len()
                    &&& results.len() == actions.len()
                    &&& forall|i: int|
                        0 <= i < results.len() ==> outcomes[i] == Ok::<ResultView, Error>(
                            #[trigger] results[i],
                        )
                },
                Err((index, error)) => {
                    &&& outcomes.len() == index + 1
                    &&& outcomes.last() == Err::<ResultView, Error>(error)
                },
            }
        }
}

/// Runs a batch of actions on behalf of a transaction, in their order, and
/// stops at the first that fails.
pub fn execute_batch(txn: &MemoryTransaction, store: &mut MemoryDatastore, actions: Vec<Action>) -> (done:
    Result<Vec<ActionResult>, BatchError>)
    requires
        old(store).wf(),
    ensures
        final(store).wf(),
        batch_runs(
            *old(store),
            txn.account(),
            action_views(actions@),
            *final(store),
            match done {
                Ok(results) => Ok(result_views(results@)),
                Err(stopped) => Err((stopped.index as int, stopped.error)),
            },
        ),
{
    let ghost given = actions@;
    let ghost all = action_views(given);
    let ghost account = txn.account();
    let count = actions.len();
    let ghost mut states: Seq<MemoryDatastore> = seq![*store];
    let ghost mut outcomes: Seq<Result<ResultView, Error>> = Seq::empty();
    let mut results: Vec<ActionResult> = Vec::new();
    let mut index: usize = 0;
    for action in iter: actions
        invariant
            store.wf(),
            account == txn.account(),
            iter.seq() == given,
            all == action_views(given),
            given.len() == count,
            index == iter.index(),
            results@.len() == index,
            outcomes.len() == index,
            run_of(account, all, states, outcomes),
            states[0] == *old(store),
            states.last() == *store,
            forall|i: int|
                0 <= i < index ==> outcomes[i] == Ok::<ResultView, Error>(
                    #[trigger] result_views(results@)[i],
                ),
    {
        let ghost before = *store;
        let ghost view = action@;
        assert(all[index as int] == view);
        let outcome = perform(txn, store, action);
        let ghost seen = outcome_view(outcome);
        proof {
            assert forall|i: int| 0 <= i < outcomes.len() implies (#[trigger] outcomes[i]) is Ok by {
                assert(outcomes[i] == Ok::<ResultView, Error>(result_views(results@)[i]));
            }
            lemma_run_grows(account, all, states, outcomes, *store, seen);
            states = states.push(*store);
            outcomes = outcomes.push(seen);
        }
        match outcome {
            Ok(result) => {
                let ghost earlier = result_views(results@);
                results.push(result);
                proof {
                    assert(result_views(results@) =~= earlier.push(result@));
                    assert forall|i: int| 0 <= i < index + 1 implies outcomes[i] == Ok::<
                        ResultView,
                        Error,
                    >(#[trigger] result_views(results@)[i]) by {
                        if i < index {
                            assert(outcomes[i] == Ok::<ResultView, Error>(earlier[i]));
                        }
                    }
                }
            },
            Err(error) => {
                assert(run_of(account, all, states, outcomes));
                return Err(BatchError { index, error });
            },
        }
        index += 1;
    }
    assert(run_of(account, all, states, outcomes));
    Ok(results)
}

/// Whether every action of a batch only reads.
pub open spec fn all_read(actions: Seq<ActionView>) -> bool {
    forall|i: int| 0 <= i < actions.len() ==> (#[trigger] actions[i]).reads()
}

/// Tells whether every action of a batch only reads.
pub fn reads_only(actions: &Vec<Action>) -> (reads: bool)
    ensures
        reads == all_read(action_views(actions@)),
{
    let mut i: usize = 0;
    while i < actions.len()
        invariant
            i <= actions@.len(),
            forall|j: int| 0 <= j < i ==> (#[trigger] action_views(actions@)[j]).reads(),
        decreases actions@.len() - i,
    {
        assert(action_views(actions@)[i as int] == actions@[i as int]@);
        if !actions[i].is_read() {
            return false;
        }
        i += 1;
    }
    true
}

/// Runs a batch of actions that only read, on behalf of a transaction, in
/// their order, and stops at the first that fails. The datastore stays as
/// it is, so that such batches can run side by side.
pub fn execute_reads(txn: &MemoryTransaction, store: &MemoryDatastore, actions: Vec<Action>) -> (done:
    Result<Vec<ActionResult>, BatchError>)
    requires
        store.wf(),
        all_read(action_views(actions@)),
    ensures
        batch_runs(
            *store,
            txn.account(),
            action_views(actions@),
            *store,
            match done {
                Ok(results) => Ok(result_views(results@)),
                Err(stopped) => Err((stopped.index as int, stopped.error)),
            },
        ),
{
    let ghost given = actions@;
    let ghost all = action_views(given);
    let ghost account = txn.account();
    let count = actions.len();
    let ghost mut states: Seq<MemoryDatastore> = seq![*store];
    let ghost mut outcomes: Seq<Result<ResultView, Error>> = Seq::empty();
    let mut results: Vec<ActionResult> = Vec::new();
    let mut index: usize = 0;
    for action in iter: actions
        invariant
            store.wf(),
            account == txn.account(),
            iter.seq() == given,
            all == action_views(given),
            all_read(all),
            given.len() == count,
            index == iter.index(),
            results@.len() == index,
            outcomes.len() == index,
            run_of(account, all, states, outcomes),
            states[0] == *store,
            states.last() == *store,
            forall|i: int|
                0 <= i < index ==> outcomes[i] == Ok::<ResultView, Error>(
                    #[trigger] result_views(results@)[i],
                ),
    {
        let ghost view = action@;
        assert(all[index as int] == view);
        let outcome = perform_read(txn, store, action);
        let ghost seen = outcome_view(outcome);
        proof {
            assert forall|i: int| 0 <= i < outcomes.len() implies (#[trigger] outcomes[i]) is Ok by {
                assert(outcomes[i] == Ok::<ResultView, Error>(result_views(results@)[i]));
            }
            lemma_run_grows(account, all, states, outcomes, *store, seen);
            states = states.push(*store);
            outcomes = outcomes.push(seen);
        }
        match outcome {
            Ok(result) => {
                let ghost earlier = result_views(results@);
                results.push(result);
                proof {
                    assert(result_views(results@) =~= earlier.push(result@));
                    assert forall|i: int| 0 <= i < index + 1 implies outcomes[i] == Ok::<
                        ResultView,
                        Error,
                    >(#[trigger] result_views(results@)[i]) by {
                        if i < index {
                            assert(outcomes[i] == Ok::<ResultView, Error>(earlier[i]));
                        }
                    }
                }
            },
            Err(error) => {
                assert(run_of(account, all, states, outcomes));
                return Err(BatchError { index, error });
            },
        }
        index += 1;
    }
    assert(run_of(account, all, states, outcomes));
    Ok(results)
}

/// The decimal digits of a number, as ASCII codes.
pub open spec fn decimal(n: nat) -> Seq<u8>
    decreases n,
{
    if n < 10 {
        seq![(48 + n) as u8]
    } else {
        decimal(n / 10).push((48 + n % 10) as u8)
    }
}

/// Every decimal digit is an ASCII character.
pub proof fn lemma_decimal_is_ascii(n: nat)
    ensures
        forall|i: int| 0 <= i < decimal(n).len() ==> decimal(n)[i] < 128,
    decreases n,
{
    if n >= 10 {
        lemma_decimal_is_ascii(n / 10);
        let head = decimal(n / 10);
        assert forall|i: int| 0 <= i < decimal(n).len() implies decimal(n)[i] < 128 by {
            if i < head.len() {
                assert(decimal(n)[i] == head[i]);
            }
        }
    }
}

/// Writes the decimal digits of a number behind what a vector holds.
fn push_decimal(n: usize, out: &mut Vec<u8>)
    ensures
        final(out)@ == old(out)@ + decimal(n as nat),
    decreases n,
{
    if n >= 10 {
        push_decimal(n / 10, out);
    }
    let digit: u8 = 48 + (n % 10) as u8;
    out.push(digit);
    proof {
        if n >= 10 {
            assert(out@ =~= old(out)@ + decimal(n as nat));
        } else {
            assert(out@ =~= old(out)@ + decimal(n as nat));
        }
    }
}

impl BatchError {
    /// The text shown for a batch that stopped: the place of the action that
    /// failed, then the text of its error.
    pub open spec fn message_spec(self) -> Seq<char> {
        "Item #"@ + ascii_text(decimal(self.index as nat)) + ": "@ + self.error.message_spec()
    }

    /// Renders the error as text, as in `Item #1: vertex does not exist`.
    pub fn message(&self) -> (text: String)
        ensures
            text@ == self.message_spec(),
    {
        let mut digits: Vec<u8> = Vec::new();
        push_decimal(self.index, &mut digits);
        proof {
            lemma_decimal_is_ascii(self.index as nat);
            assert(digits@ =~= decimal(self.index as nat));
            lemma_ascii_is_utf8(digits@);
        }
        let place = match string_from_utf8(digits) {
            Some(place) => {
                proof {
                    vstd::utf8::encode_utf8_decode_utf8(place@);
                }
                place
            },
            None => String::new(),
        };
        let detail = self.error.message();
        "Item #".to_owned().concat(place.as_str()).concat(": ").concat(detail.as_str())
    }
}

} // verus!
