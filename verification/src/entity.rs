//! Identifiers and the value types of the entity model.
//!
//! Records and links share one identifier namespace. Every stored version of
//! an entity is addressed by an [`EntityIdVer`]: the identifier together with
//! a version number.

use vstd::prelude::*;

verus! {

/// Two to the power of 64: the weight of the high half of an identifier.
pub const HALF_RANGE: u128 = 0x1_0000_0000_0000_0000;

/// Version number that stands for "the latest version" on read paths.
pub const ENTITY_VER_LATEST: u64 = 0;

/// Version number given to the first version of an entity.
pub const ENTITY_VER_FIRST: u64 = 1;

/// Container-unique identifier of a record or a link.
#[derive(Clone, Copy, Debug, PartialEq, Eq, Structural, PartialOrd, Ord, Hash)]
pub struct EntityId {
    /// Container-unique entity id.
    pub id: u128,
}

/// Identifiers in an empty container start from this value.
///
/// Rationale: the first ~90k identifiers have the same width in decimal.
pub const ENTITY_ID_START: u128 = 10000;

impl EntityId {
    pub fn new(id: u128) -> (eid: EntityId)
        ensures
            eid.id == id,
    {
        EntityId { id }
    }

    pub fn id(&self) -> (id: u128)
        ensures
            id == self.id,
    {
        self.id
    }

    /// The identifier that the first entity of an empty container gets.
    pub fn start() -> (eid: EntityId)
        ensures
            eid.id == ENTITY_ID_START,
    {
        EntityId { id: ENTITY_ID_START }
    }

    /// The identifier that follows this one.
    pub fn add_1(&self) -> (next: EntityId)
        requires
            self.id < u128::MAX,
        ensures
            next.id == self.id + 1,
    {
        EntityId { id: self.id + 1 }
    }

    /// The low 64 bits of the identifier.
    pub open spec fn spec_lo(self) -> u64 {
        (self.id % HALF_RANGE) as u64
    }

    /// The high 64 bits of the identifier.
    pub open spec fn spec_hi(self) -> u64 {
        (self.id / HALF_RANGE) as u64
    }

    /// The identifier whose halves are `lo` and `hi`.
    pub open spec fn spec_from_halves(lo: u64, hi: u64) -> EntityId {
        EntityId { id: (hi * HALF_RANGE + lo) as u128 }
    }

    #[verifier::when_used_as_spec(spec_lo)]
    pub fn lo(self) -> (lo: u64)
        ensures
            lo == self.spec_lo(),
    {
        (self.id % HALF_RANGE) as u64
    }

    #[verifier::when_used_as_spec(spec_hi)]
    pub fn hi(self) -> (hi: u64)
        ensures
            hi == self.spec_hi(),
    {
        (self.id / HALF_RANGE) as u64
    }

    #[verifier::when_used_as_spec(spec_from_halves)]
    pub fn from_halves(lo: u64, hi: u64) -> (eid: EntityId)
        ensures
            eid == Self::spec_from_halves(lo, hi),
    {
        let high: u128 = hi as u128;
        let low: u128 = lo as u128;
        EntityId { id: high * HALF_RANGE + low }
    }

    /// Splitting an identifier into halves and joining them again gives the
    /// identifier back.
    pub proof fn lemma_halves_join(self)
        ensures
            Self::spec_from_halves(self.spec_lo(), self.spec_hi()) == self,
    {
    }

    /// Joining two halves and splitting the result gives the halves back.
    pub proof fn lemma_join_halves(lo: u64, hi: u64)
        ensures
            Self::spec_from_halves(lo, hi).spec_lo() == lo,
            Self::spec_from_halves(lo, hi).spec_hi() == hi,
    {
    }
}

/// Reference to one version of an entity.
///
/// Stored versions are numbered from [`ENTITY_VER_FIRST`] upwards. The
/// version [`ENTITY_VER_LATEST`] is never stored: on the read paths that
/// accept it, it selects the highest stored version.
#[derive(Clone, Copy, Debug, PartialEq, Eq, Structural, PartialOrd, Ord, Hash)]
pub struct EntityIdVer {
    pub id: EntityId,
    pub ver: u64,
}

impl View for EntityIdVer {
    type V = EntityIdVer;

    open spec fn view(&self) -> EntityIdVer {
        *self
    }
}

impl DeepView for EntityIdVer {
    type V = EntityIdVer;

    open spec fn deep_view(&self) -> EntityIdVer {
        *self
    }
}

impl EntityIdVer {
    pub fn new(id: EntityId, ver: u64) -> (eid: EntityIdVer)
        ensures
            eid.id == id,
            eid.ver == ver,
    {
        EntityIdVer { id, ver }
    }

    /// Reference to whatever the latest version of `id` is.
    pub fn latest(id: EntityId) -> (eid: EntityIdVer)
        ensures
            eid.id == id,
            eid.ver == ENTITY_VER_LATEST,
    {
        EntityIdVer { id, ver: ENTITY_VER_LATEST }
    }

    pub fn id(&self) -> (id: EntityId)
        ensures
            id == self.id,
    {
        self.id
    }

    pub fn ver(&self) -> (ver: u64)
        ensures
            ver == self.ver,
    {
        self.ver
    }

    pub open spec fn spec_is_latest(&self) -> bool {
        self.ver == ENTITY_VER_LATEST
    }

    /// Whether this reference asks for the latest version.
    #[verifier::when_used_as_spec(spec_is_latest)]
    pub fn is_latest(&self) -> (b: bool)
        ensures
            b == self.spec_is_latest(),
    {
        self.ver == ENTITY_VER_LATEST
    }
}

/// The keys of the attributes, in order.
pub open spec fn keys_of(attributes: Seq<(Seq<char>, Seq<char>)>) -> Seq<Seq<char>> {
    Seq::new(attributes.len(), |j: int| attributes[j].0)
}

/// The values of the attributes, in order.
pub open spec fn values_of(attributes: Seq<(Seq<char>, Seq<char>)>) -> Seq<Seq<char>> {
    Seq::new(attributes.len(), |j: int| attributes[j].1)
}

/// The map from key to value that attributes with distinct keys stand for.
pub open spec fn attribute_map(attributes: Seq<(Seq<char>, Seq<char>)>) -> Map<
    Seq<char>,
    Seq<char>,
> {
    Map::new(
        |k: Seq<char>| keys_of(attributes).contains(k),
        |k: Seq<char>| attributes[keys_of(attributes).index_of(k)].1,
    )
}

/// Mathematical model of [`TagsAndAttributes`].
pub struct TagsAndAttributesView {
    pub tags: Seq<Seq<char>>,
    pub attributes: Seq<(Seq<char>, Seq<char>)>,
}

impl TagsAndAttributesView {
    /// Every tag is distinct and every attribute key is distinct.
    pub open spec fn wf(self) -> bool {
        &&& self.tags.no_duplicates()
        &&& keys_of(self.attributes).no_duplicates()
    }
}

/// The free-form tags and the attributes that every entity carries.
///
/// The vectors stand for a set of tags and for a map from key to value. A
/// value with a repeated tag or a repeated key can be built, and can be
/// written to a container, but it is a representation error and is reported
/// when it is read back.
#[derive(Clone, Debug, Default, PartialEq, Eq)]
pub struct TagsAndAttributes {
    pub tags: Vec<String>,
    pub attributes: Vec<(String, String)>,
}

impl View for TagsAndAttributes {
    type V = TagsAndAttributesView;

    open spec fn view(&self) -> TagsAndAttributesView {
        TagsAndAttributesView {
            tags: self.tags.deep_view(),
            attributes: self.attributes.deep_view(),
        }
    }
}

/// Mathematical model of [`Record`].
pub struct RecordView {
    pub ta: TagsAndAttributesView,
    pub data: Option<Seq<u8>>,
}

impl RecordView {
    pub open spec fn wf(self) -> bool {
        self.ta.wf()
    }
}

/// An entity with an optional binary payload. No payload and an empty payload
/// are different things.
#[derive(Clone, Debug, PartialEq, Eq)]
pub struct Record {
    pub ta: TagsAndAttributes,
    pub data: Option<Vec<u8>>,
}

impl View for Record {
    type V = RecordView;

    open spec fn view(&self) -> RecordView {
        RecordView { ta: self.ta@, data: self.data.deep_view() }
    }
}

/// Mathematical model of [`Link`].
pub struct LinkView {
    pub ta: TagsAndAttributesView,
    pub from: Seq<EntityIdVer>,
    pub to: Seq<EntityIdVer>,
}

impl LinkView {
    pub open spec fn wf(self) -> bool {
        self.ta.wf()
    }
}

/// A directed association between entities. Membership in `from` is distinct
/// from membership in `to`.
#[derive(Clone, Debug, PartialEq, Eq)]
pub struct Link {
    pub ta: TagsAndAttributes,
    pub from: Vec<EntityIdVer>,
    pub to: Vec<EntityIdVer>,
}

impl View for Link {
    type V = LinkView;

    open spec fn view(&self) -> LinkView {
        LinkView { ta: self.ta@, from: self.from@, to: self.to@ }
    }
}

#[derive(Clone, Debug, PartialEq, Eq)]
pub struct SearchResultRecord {
    pub record_id: EntityIdVer,
}

#[derive(Clone, Debug, PartialEq, Eq)]
pub struct SearchResultLink {
    pub link_id: EntityIdVer,
}

#[derive(Clone, Debug, PartialEq, Eq)]
pub struct SearchResultTag {
    pub tag: String,
}

#[derive(Clone, Debug, PartialEq, Eq)]
pub struct SearchResultAttribute {
    pub key: String,
    pub value: String,
}

/// One item of a search result.
#[derive(Clone, Debug, PartialEq, Eq)]
pub enum SearchResult {
    Record(SearchResultRecord),
    Link(SearchResultLink),
    Tag(SearchResultTag),
    Attribute(SearchResultAttribute),
}

/// Mathematical model of [`SearchResult`].
pub enum SearchResultView {
    Record(EntityIdVer),
    Link(EntityIdVer),
    Tag(Seq<char>),
    Attribute(Seq<char>, Seq<char>),
}

impl View for SearchResult {
    type V = SearchResultView;

    open spec fn view(&self) -> SearchResultView {
        match self {
            SearchResult::Record(r) => SearchResultView::Record(r.record_id),
            SearchResult::Link(l) => SearchResultView::Link(l.link_id),
            SearchResult::Tag(t) => SearchResultView::Tag(t.tag@),
            SearchResult::Attribute(a) => SearchResultView::Attribute(a.key@, a.value@),
        }
    }
}

impl DeepView for SearchResult {
    type V = SearchResultView;

    open spec fn deep_view(&self) -> SearchResultView {
        self.view()
    }
}
} // verus!
