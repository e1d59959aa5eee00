//! The values of the graph: type tags, weights, vertices and edges.

use crate::errors::ValidationError;
use vstd::prelude::*;
use vstd::std_specs::cmp::PartialEqSpecImpl;
use vstd::string::StringSliceAdditionalSpecFns;
use vstd::utf8::encode_utf8;

verus! {

/// The greatest number of octets in a type tag or a metadata key.
pub const MAX_NAME_LENGTH: usize = 255;

/// Whether a text of `len` octets is acceptable as a type tag.
pub open spec fn name_length_ok(len: int) -> bool {
    1 <= len <= 255
}

/// Checks a text that is to serve as a type tag or a metadata key: it must
/// hold at least one octet and at most 255.
pub fn validate_type(s: &str) -> (checked: Result<(), ValidationError>)
    ensures
        checked is Ok <==> name_length_ok(s.spec_bytes().len() as int),
        checked == Err::<(), ValidationError>(ValidationError::ValueTooLong)
            <==> s.spec_bytes().len() > 255,
        checked == Err::<(), ValidationError>(ValidationError::InvalidValue)
            <==> s.spec_bytes().len() == 0,
{
    let len = s.as_bytes().len();
    if len > MAX_NAME_LENGTH {
        Err(ValidationError::ValueTooLong)
    } else if len == 0 {
        Err(ValidationError::InvalidValue)
    } else {
        Ok(())
    }
}

/// A type tag: a text of 1 to 255 octets that labels a vertex or an edge.
/// Two tags are the same when their octets are.
#[derive(Debug)]
pub struct Type {
    value: String,
}

impl View for Type {
    type V = Seq<u8>;

    /// The octets of the tag's UTF-8 encoding.
    closed spec fn view(&self) -> Seq<u8> {
        encode_utf8(self.value@)
    }
}

impl Type {
    #[verifier::type_invariant]
    spec fn bounded(&self) -> bool {
        name_length_ok(self@.len() as int)
    }

    /// The text of the tag.
    pub closed spec fn text(&self) -> Seq<char> {
        self.value@
    }

    /// Makes a tag of a text, which must pass `validate_type`.
    pub fn new(s: String) -> (made: Result<Type, ValidationError>)
        ensures
            made is Ok <==> name_length_ok(encode_utf8(s@).len() as int),
            made is Ok ==> made->Ok_0@ == encode_utf8(s@) && made->Ok_0.text() == s@,
            made is Err ==> (made->Err_0 == ValidationError::ValueTooLong
                <==> encode_utf8(s@).len() > 255),
            made is Err ==> (made->Err_0 == ValidationError::InvalidValue
                <==> encode_utf8(s@).len() == 0),
    {
        match validate_type(s.as_str()) {
            Ok(()) => Ok(Type { value: s }),
            Err(e) => Err(e),
        }
    }

    /// The tag's octets.
    pub fn as_bytes(&self) -> (bytes: &[u8])
        ensures
            bytes@ == self@,
            name_length_ok(bytes@.len() as int),
    {
        proof {
            use_type_invariant(self);
        }
        self.value.as_str().as_bytes()
    }

    /// The tag's text.
    pub fn as_str(&self) -> (text: &str)
        ensures
            text@ == self.text(),
            text.spec_bytes() == self@,
    {
        self.value.as_str()
    }

    /// A second tag with the same octets.
    pub fn duplicate(&self) -> (copy: Type)
        ensures
            copy@ == self@,
            copy.text() == self.text(),
    {
        proof {
            use_type_invariant(self);
        }
        Type { value: self.value.clone() }
    }
}

/// The order of octet sequences: at the first place where two differ the
/// smaller octet decides, and a proper prefix comes before its extensions.
pub open spec fn bytes_lt(a: Seq<u8>, b: Seq<u8>) -> bool
    decreases a.len(),
{
    if b.len() == 0 {
        false
    } else if a.len() == 0 {
        true
    } else if a[0] != b[0] {
        a[0] < b[0]
    } else {
        bytes_lt(a.drop_first(), b.drop_first())
    }
}

/// No octet sequence comes before itself.
pub proof fn lemma_bytes_lt_irreflexive(a: Seq<u8>)
    ensures
        !bytes_lt(a, a),
    decreases a.len(),
{
    if a.len() > 0 {
        lemma_bytes_lt_irreflexive(a.drop_first());
    }
}

/// The order of octet sequences is transitive.
pub proof fn lemma_bytes_lt_transitive(a: Seq<u8>, b: Seq<u8>, c: Seq<u8>)
    requires
        bytes_lt(a, b),
        bytes_lt(b, c),
    ensures
        bytes_lt(a, c),
    decreases a.len(),
{
    if a.len() > 0 && a[0] == b[0] && b[0] == c[0] {
        lemma_bytes_lt_transitive(a.drop_first(), b.drop_first(), c.drop_first());
    }
}

/// Of two different octet sequences one comes before the other.
pub proof fn lemma_bytes_lt_total(a: Seq<u8>, b: Seq<u8>)
    ensures
        bytes_lt(a, b) || bytes_lt(b, a) || a == b,
        !(bytes_lt(a, b) && bytes_lt(b, a)),
    decreases a.len(),
{
    if a.len() == 0 || b.len() == 0 {
        if a.len() == 0 && b.len() == 0 {
            assert(a =~= b);
        }
    } else if a[0] == b[0] {
        lemma_bytes_lt_total(a.drop_first(), b.drop_first());
        if a.drop_first() == b.drop_first() {
            assert(a =~= seq![a[0]] + a.drop_first());
            assert(b =~= seq![b[0]] + b.drop_first());
        }
    }
}

/// How two octet sequences stand to each other.
#[derive(Debug, Clone, Copy, PartialEq, Eq, Structural)]
pub enum Rank {
    Before,
    Same,
    After,
}

/// How `a` stands to `b` in the order of octet sequences.
pub open spec fn bytes_rank(a: Seq<u8>, b: Seq<u8>) -> Rank {
    if bytes_lt(a, b) {
        Rank::Before
    } else if a == b {
        Rank::Same
    } else {
        Rank::After
    }
}

/// Compares two octet slices in the order of octet sequences.
pub fn compare_bytes(a: &[u8], b: &[u8]) -> (rank: Rank)
    ensures
        rank == bytes_rank(a@, b@),
{
    let mut i: usize = 0;
    assert(a@.skip(0) =~= a@ && b@.skip(0) =~= b@);
    while i < a.len() && i < b.len()
        invariant
            i <= a@.len(),
            i <= b@.len(),
            a@.take(i as int) == b@.take(i as int),
            bytes_lt(a@, b@) == bytes_lt(a@.skip(i as int), b@.skip(i as int)),
        decreases a@.len() - i,
    {
        if a[i] != b[i] {
            assert(a@.skip(i as int)[0] == a@[i as int]);
            assert(b@.skip(i as int)[0] == b@[i as int]);
            assert(a@ != b@);
            return if a[i] < b[i] {
                Rank::Before
            } else {
                Rank::After
            };
        }
        proof {
            let x = a@.skip(i as int);
            let y = b@.skip(i as int);
            assert(x[0] == y[0]);
            assert(x.drop_first() =~= a@.skip(i + 1));
            assert(y.drop_first() =~= b@.skip(i + 1));
            assert(a@.take(i + 1) =~= a@.take(i as int).push(a@[i as int]));
            assert(b@.take(i + 1) =~= b@.take(i as int).push(b@[i as int]));
        }
        i += 1;
    }
    if i < b.len() {
        Rank::Before
    } else if i < a.len() {
        assert(a@ != b@);
        Rank::After
    } else {
        assert(a@ =~= a@.take(i as int));
        assert(b@ =~= b@.take(i as int));
        proof {
            lemma_bytes_lt_irreflexive(a@);
        }
        Rank::Same
    }
}

/// Compares two type tags by their octets.
pub fn compare_types(a: &Type, b: &Type) -> (rank: Rank)
    ensures
        rank == bytes_rank(a@, b@),
{
    compare_bytes(a.as_bytes(), b.as_bytes())
}

impl PartialEq for Type {
    /// Two tags are equal when their octets are.
    fn eq(&self, other: &Type) -> (same: bool) {
        proof {
            lemma_bytes_lt_irreflexive(self@);
        }
        matches!(compare_types(self, other), Rank::Same)
    }
}

impl PartialEqSpecImpl for Type {
    open spec fn obeys_eq_spec() -> bool {
        true
    }

    open spec fn eq_spec(&self, other: &Type) -> bool {
        self@ == other@
    }
}

/// The bit pattern of the weight 1.0.
pub const WEIGHT_ONE: u32 = 0x3f80_0000;

/// The bits of a pattern that hold the magnitude: all but the sign.
pub const WEIGHT_MAGNITUDE: u32 = 0x7fff_ffff;

/// Whether `bits`, read as an IEEE 754 single-precision number, is a finite
/// number between -1.0 and 1.0, both included. Patterns of one sign are
/// ordered as the magnitudes they denote, and every infinity and NaN lies
/// above the pattern of 1.0.
pub open spec fn weight_in_range(bits: u32) -> bool {
    (bits & 0x7fff_ffff) <= 0x3f80_0000
}

/// A pattern in range is neither an infinity nor a NaN: its exponent field
/// is not all ones.
pub proof fn lemma_weight_in_range_is_finite(bits: u32)
    requires
        weight_in_range(bits),
    ensures
        (bits & 0x7f80_0000) != 0x7f80_0000,
{
    assert((bits & 0x7fff_ffff) <= 0x3f80_0000 ==> (bits & 0x7f80_0000) != 0x7f80_0000)
        by (bit_vector);
}

/// Checks the bit pattern of a weight: fails with `InvalidValue` unless it
/// denotes a finite number in [-1.0, 1.0].
pub fn validate_weight(bits: u32) -> (checked: Result<(), ValidationError>)
    ensures
        checked is Ok <==> weight_in_range(bits),
        checked is Err ==> checked->Err_0 == ValidationError::InvalidValue,
{
    if (bits & WEIGHT_MAGNITUDE) <= WEIGHT_ONE {
        Ok(())
    } else {
        Err(ValidationError::InvalidValue)
    }
}

/// The weight of an edge: a finite number in [-1.0, 1.0], held as its IEEE
/// 754 single-precision bit pattern.
#[derive(Debug, Clone, Copy, PartialEq, Eq, Structural)]
pub struct Weight {
    bits: u32,
}

impl View for Weight {
    type V = u32;

    /// The weight's bit pattern.
    closed spec fn view(&self) -> u32 {
        self.bits
    }
}

impl Weight {
    #[verifier::type_invariant]
    spec fn bounded(&self) -> bool {
        weight_in_range(self.bits)
    }

    /// Makes a weight of a bit pattern, which must pass `validate_weight`.
    pub fn new(bits: u32) -> (made: Result<Weight, ValidationError>)
        ensures
            made is Ok <==> weight_in_range(bits),
            made is Ok ==> made->Ok_0@ == bits,
            made is Err ==> made->Err_0 == ValidationError::InvalidValue,
    {
        match validate_weight(bits) {
            Ok(()) => Ok(Weight { bits }),
            Err(e) => Err(e),
        }
    }

    /// The weight's bit pattern, which is always in range.
    pub fn bits(&self) -> (bits: u32)
        ensures
            bits == self@,
            weight_in_range(bits),
    {
        proof {
            use_type_invariant(self);
        }
        self.bits
    }
}

/// What a vertex is, as plain values.
pub struct VertexView {
    pub id: u128,
    pub t: Seq<u8>,
}

/// A vertex: an identifier and a type tag.
#[derive(Debug)]
pub struct Vertex {
    pub id: u128,
    pub t: Type,
}

impl View for Vertex {
    type V = VertexView;

    open spec fn view(&self) -> VertexView {
        VertexView { id: self.id, t: self.t@ }
    }
}

impl Vertex {
    /// Makes a vertex.
    pub fn new(id: u128, t: Type) -> (made: Vertex)
        ensures
            made@ == (VertexView { id, t: t@ }),
    {
        Vertex { id, t }
    }

    /// A second vertex with the same identifier and tag.
    pub fn duplicate(&self) -> (copy: Vertex)
        ensures
            copy@ == self@,
    {
        Vertex { id: self.id, t: self.t.duplicate() }
    }
}

impl PartialEq for Vertex {
    /// Two vertices are equal when their identifiers and their tags are.
    fn eq(&self, other: &Vertex) -> (same: bool) {
        self.id == other.id && self.t == other.t
    }
}

impl PartialEqSpecImpl for Vertex {
    open spec fn obeys_eq_spec() -> bool {
        true
    }

    open spec fn eq_spec(&self, other: &Vertex) -> bool {
        self@ == other@
    }
}

/// What identifies an edge, as plain values.
pub struct EdgeKeyView {
    pub outbound_id: u128,
    pub t: Seq<u8>,
    pub inbound_id: u128,
}

/// Whether an edge starts or ends at a vertex.
pub open spec fn incident(key: EdgeKeyView, id: u128) -> bool {
    key.outbound_id == id || key.inbound_id == id
}

/// The identity of an edge: where it starts, its type tag, where it ends.
#[derive(Debug)]
pub struct EdgeKey {
    pub outbound_id: u128,
    pub t: Type,
    pub inbound_id: u128,
}

impl View for EdgeKey {
    type V = EdgeKeyView;

    open spec fn view(&self) -> EdgeKeyView {
        EdgeKeyView { outbound_id: self.outbound_id, t: self.t@, inbound_id: self.inbound_id }
    }
}

impl EdgeKey {
    /// Makes an edge identity.
    pub fn new(outbound_id: u128, t: Type, inbound_id: u128) -> (made: EdgeKey)
        ensures
            made@ == (EdgeKeyView { outbound_id, t: t@, inbound_id }),
    {
        EdgeKey { outbound_id, t, inbound_id }
    }

    /// A second identity with the same endpoints and tag.
    pub fn duplicate(&self) -> (copy: EdgeKey)
        ensures
            copy@ == self@,
    {
        EdgeKey {
            outbound_id: self.outbound_id,
            t: self.t.duplicate(),
            inbound_id: self.inbound_id,
        }
    }

    /// Whether two identities are the same.
    pub fn same(&self, other: &EdgeKey) -> (same: bool)
        ensures
            same == (self@ == other@),
    {
        let rank = compare_types(&self.t, &other.t);
        proof {
            lemma_bytes_lt_irreflexive(self.t@);
        }
        self.outbound_id == other.outbound_id && self.inbound_id == other.inbound_id && matches!(
            rank,
            Rank::Same
        )
    }
}

impl PartialEq for EdgeKey {
    /// Two identities are equal when their ends and their tags are.
    fn eq(&self, other: &EdgeKey) -> (same: bool) {
        self.same(other)
    }
}

impl PartialEqSpecImpl for EdgeKey {
    open spec fn obeys_eq_spec() -> bool {
        true
    }

    open spec fn eq_spec(&self, other: &EdgeKey) -> bool {
        self@ == other@
    }
}

/// What an edge is, as plain values: its identity, the bit pattern of its
/// weight, and the nanoseconds since the epoch at which it was last written.
pub struct EdgeView {
    pub key: EdgeKeyView,
    pub weight: u32,
    pub updated_at: u64,
}

/// A directed, typed, weighted edge and the time of its last write.
#[derive(Debug)]
pub struct Edge {
    pub key: EdgeKey,
    pub weight: Weight,
    pub updated_at: u64,
}

impl View for Edge {
    type V = EdgeView;

    open spec fn view(&self) -> EdgeView {
        EdgeView { key: self.key@, weight: self.weight@, updated_at: self.updated_at }
    }
}

impl Edge {
    /// Makes an edge.
    pub fn new(key: EdgeKey, weight: Weight, updated_at: u64) -> (made: Edge)
        ensures
            made@ == (EdgeView { key: key@, weight: weight@, updated_at }),
    {
        Edge { key, weight, updated_at }
    }

    /// A second edge with the same identity, weight and time.
    pub fn duplicate(&self) -> (copy: Edge)
        ensures
            copy@ == self@,
    {
        Edge { key: self.key.duplicate(), weight: self.weight, updated_at: self.updated_at }
    }
}

impl PartialEq for Edge {
    /// Two edges are equal when their identities are: the weight and the
    /// time of the last write play no part.
    fn eq(&self, other: &Edge) -> (same: bool) {
        self.key.same(&other.key)
    }
}

impl PartialEqSpecImpl for Edge {
    open spec fn obeys_eq_spec() -> bool {
        true
    }

    open spec fn eq_spec(&self, other: &Edge) -> bool {
        self@.key == other@.key
    }
}

} // verus!
