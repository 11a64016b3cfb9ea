//! The transaction contract: what every operation of a transaction means,
//! stated on the model of the four tables.
//!
//! Tags, attributes, payloads and endpoints are stored per version of an
//! entity. A put never changes a stored version: it adds the next one.

use crate::container::rows::{
    attributes_result, endpoints, latest_version_of, link_rows, next_id_of, next_version_of,
    payload_result, tags_result,
};
use crate::container::tables::{keys, remove, rows_for, select, values, TablesView};
use crate::search::{attribute_results, found_attributes, found_tags, tag_results};
use crate::container::DataErrorView;
use crate::entity::{
    EntityId, EntityIdVer, LinkView, RecordView, SearchResultView, TagsAndAttributesView,
    ENTITY_VER_FIRST, ENTITY_VER_LATEST,
};
use crate::search_query::{SearchQueryRecordsAndLinksView, SearchQueryView};
use vstd::prelude::*;

verus! {

impl TablesView {
    /// The tags of `eid`.
    pub open spec fn tags_get(self, eid: EntityIdVer) -> Result<Seq<Seq<char>>, DataErrorView> {
        tags_result(eid, select(self.tags, eid))
    }

    /// The tables after `tags` are added to `eid`.
    pub open spec fn tags_put(self, eid: EntityIdVer, tags: Seq<Seq<char>>) -> TablesView {
        TablesView { tags: self.tags + rows_for(eid, tags), ..self }
    }

    /// The tables after the tags of `eid` are deleted.
    pub open spec fn tags_del(self, eid: EntityIdVer) -> TablesView {
        TablesView { tags: remove(self.tags, eid), ..self }
    }

    /// The attributes of `eid`.
    pub open spec fn attributes_get(self, eid: EntityIdVer) -> Result<
        Seq<(Seq<char>, Seq<char>)>,
        DataErrorView,
    > {
        attributes_result(eid, select(self.attributes, eid))
    }

    /// The tables after `attributes` are added to `eid`.
    pub open spec fn attributes_put(
        self,
        eid: EntityIdVer,
        attributes: Seq<(Seq<char>, Seq<char>)>,
    ) -> TablesView {
        TablesView { attributes: self.attributes + rows_for(eid, attributes), ..self }
    }

    /// The tables after the attributes of `eid` are deleted.
    pub open spec fn attributes_del(self, eid: EntityIdVer) -> TablesView {
        TablesView { attributes: remove(self.attributes, eid), ..self }
    }

    /// The tags and the attributes of `eid`. Where both are broken, the
    /// error is that of the tags.
    pub open spec fn tags_and_attributes_get(self, eid: EntityIdVer) -> Result<
        TagsAndAttributesView,
        DataErrorView,
    > {
        match self.tags_get(eid) {
            Err(e) => Err(e),
            Ok(tags) => match self.attributes_get(eid) {
                Err(e) => Err(e),
                Ok(attributes) => Ok(TagsAndAttributesView { tags, attributes }),
            },
        }
    }

    /// The tables after the tags and the attributes of `ta` are added to
    /// `eid`.
    pub open spec fn tags_and_attributes_put(
        self,
        eid: EntityIdVer,
        ta: TagsAndAttributesView,
    ) -> TablesView {
        self.tags_put(eid, ta.tags).attributes_put(eid, ta.attributes)
    }

    /// The tables after the tags and the attributes of `eid` are deleted.
    pub open spec fn tags_and_attributes_del(self, eid: EntityIdVer) -> TablesView {
        self.tags_del(eid).attributes_del(eid)
    }

    /// The latest version of the record `id`.
    pub open spec fn record_get_ver_latest(self, id: EntityId) -> Option<u64> {
        latest_version_of(keys(self.records), id)
    }

    /// The latest version of the link `id`.
    pub open spec fn link_get_ver_latest(self, id: EntityId) -> Option<u64> {
        latest_version_of(keys(self.links), id)
    }

    /// The stored version that a reference to a record stands for: the
    /// latest one for a reference to the latest version, if the record has a
    /// version, and else the one it names.
    pub open spec fn record_ref(self, eid: EntityIdVer) -> Option<EntityIdVer> {
        resolve(eid, self.record_get_ver_latest(eid.id))
    }

    /// The stored version that a reference to a link stands for.
    pub open spec fn link_ref(self, eid: EntityIdVer) -> Option<EntityIdVer> {
        resolve(eid, self.link_get_ver_latest(eid.id))
    }

    /// The stored version `at` of a record, if it is stored.
    pub open spec fn record_at(self, at: EntityIdVer) -> Result<Option<RecordView>, DataErrorView> {
        match payload_result(at, select(self.records, at)) {
            Err(e) => Err(e),
            Ok(None) => Ok(None),
            Ok(Some(data)) => match self.tags_and_attributes_get(at) {
                Err(e) => Err(e),
                Ok(ta) => Ok(Some(RecordView { ta, data })),
            },
        }
    }

    /// The stored version `at` of a link, if it is stored. A link is stored
    /// if it has an endpoint.
    pub open spec fn link_at(self, at: EntityIdVer) -> Result<Option<LinkView>, DataErrorView> {
        let rows = select(self.links, at);
        if rows.len() == 0 {
            Ok(None)
        } else {
            match self.tags_and_attributes_get(at) {
                Err(e) => Err(e),
                Ok(ta) => Ok(
                    Some(LinkView { ta, from: endpoints(rows, false), to: endpoints(rows, true) }),
                ),
            }
        }
    }

    /// The record that `eid` refers to, if there is one.
    pub open spec fn record_get(self, eid: EntityIdVer) -> Result<Option<RecordView>, DataErrorView> {
        match self.record_ref(eid) {
            None => Ok(None),
            Some(at) => self.record_at(at),
        }
    }

    /// The link that `eid` refers to, if there is one.
    pub open spec fn link_get(self, eid: EntityIdVer) -> Result<Option<LinkView>, DataErrorView> {
        match self.link_ref(eid) {
            None => Ok(None),
            Some(at) => self.link_at(at),
        }
    }

    /// A search for records and links finds this result: the latest version
    /// of a record or of a link that the query finds.
    pub open spec fn finds(self, q: SearchQueryRecordsAndLinksView, result: SearchResultView) -> bool {
        match result {
            SearchResultView::Record(at) => self.is_latest_record(at) && (self.record_at(at) matches Ok(
                Some(record),
            ) && q.matches_record(record)),
            SearchResultView::Link(at) => self.is_latest_link(at) && (self.link_at(at) matches Ok(
                Some(link),
            ) && q.matches_link(link)),
            _ => false,
        }
    }

    /// `r` is what a search gives.
    ///
    /// A search for tags gives the found tags and a search for attributes
    /// the found attributes. A search for records and links with an empty
    /// query gives nothing. With another query it gives each result that it
    /// finds once, in some order, if the latest version of every record and
    /// of every link can be read; and else it fails, for the reason for
    /// which one of them cannot be read.
    pub open spec fn is_search_result(
        self,
        query: SearchQueryView,
        r: Result<Seq<SearchResultView>, DataErrorView>,
    ) -> bool {
        match query {
            SearchQueryView::Tags(q) => r == Ok::<Seq<SearchResultView>, DataErrorView>(
                tag_results(found_tags(q, values(self.tags))),
            ),
            SearchQueryView::Attributes(q) => r == Ok::<Seq<SearchResultView>, DataErrorView>(
                attribute_results(found_attributes(q, values(self.attributes))),
            ),
            SearchQueryView::RecordsAndLinks(q) => if q.is_empty() {
                r == Ok::<Seq<SearchResultView>, DataErrorView>(Seq::empty())
            } else {
                match r {
                    Ok(found) => {
                        &&& self.sound()
                        &&& found.no_duplicates()
                        &&& forall|result: SearchResultView| #[trigger]
                            found.contains(result) <==> self.finds(q, result)
                    },
                    Err(e) => self.broken(e),
                }
            },
        }
    }

    /// The latest version of a record cannot be read, for the reason `e`.
    pub open spec fn broken_record(self, e: DataErrorView) -> bool {
        exists|at: EntityIdVer|
            self.is_latest_record(at) && #[trigger] self.record_at(at) == Err::<
                Option<RecordView>,
                DataErrorView,
            >(e)
    }

    /// The latest version of a link cannot be read, for the reason `e`.
    pub open spec fn broken_link(self, e: DataErrorView) -> bool {
        exists|at: EntityIdVer|
            self.is_latest_link(at) && #[trigger] self.link_at(at) == Err::<
                Option<LinkView>,
                DataErrorView,
            >(e)
    }

    /// The latest version of a record or of a link cannot be read, for the
    /// reason `e`.
    pub open spec fn broken(self, e: DataErrorView) -> bool {
        self.broken_record(e) || self.broken_link(e)
    }

    /// The latest version of every record and of every link can be read.
    pub open spec fn sound(self) -> bool {
        &&& forall|at: EntityIdVer| #[trigger]
            self.is_latest_record(at) ==> self.record_at(at) is Ok
        &&& forall|at: EntityIdVer| #[trigger] self.is_latest_link(at) ==> self.link_at(at) is Ok
    }

    /// The identifier for an entity that is put without one: one more than
    /// the highest identifier of all records and links, or the start value.
    pub open spec fn next_id(self) -> Option<EntityId> {
        next_id_of(keys(self.records), keys(self.links))
    }

    /// The reference that a put of a record assigns.
    pub open spec fn record_put_ref(self, id: Option<EntityId>) -> Result<
        EntityIdVer,
        DataErrorView,
    > {
        match assigned_id(id, self.next_id()) {
            None => Err(DataErrorView::IdsExhausted),
            Some(id) => assigned_ref(id, self.record_get_ver_latest(id)),
        }
    }

    /// The reference that a put of a link assigns.
    pub open spec fn link_put_ref(self, id: Option<EntityId>) -> Result<EntityIdVer, DataErrorView> {
        match assigned_id(id, self.next_id()) {
            None => Err(DataErrorView::IdsExhausted),
            Some(id) => assigned_ref(id, self.link_get_ver_latest(id)),
        }
    }

    /// The tables after `record` is stored as the version `at`.
    pub open spec fn record_put_at(self, at: EntityIdVer, record: RecordView) -> TablesView {
        let with_ta = self.tags_and_attributes_put(at, record.ta);
        TablesView { records: with_ta.records.push((at, record.data)), ..with_ta }
    }

    /// The tables after `link` is stored as the version `at`.
    pub open spec fn link_put_at(self, at: EntityIdVer, link: LinkView) -> TablesView {
        let with_ta = self.tags_and_attributes_put(at, link.ta);
        TablesView {
            links: with_ta.links + rows_for(at, link_rows(link.from, link.to)),
            ..with_ta
        }
    }

    /// The tables after a put of a record: unchanged where no reference
    /// can be assigned.
    pub open spec fn record_put(self, id: Option<EntityId>, record: RecordView) -> TablesView {
        match self.record_put_ref(id) {
            Err(_) => self,
            Ok(at) => self.record_put_at(at, record),
        }
    }

    /// The tables after a put of a link: unchanged where no reference can
    /// be assigned.
    pub open spec fn link_put(self, id: Option<EntityId>, link: LinkView) -> TablesView {
        match self.link_put_ref(id) {
            Err(_) => self,
            Ok(at) => self.link_put_at(at, link),
        }
    }

    /// Whether the version `eid` of a record is stored.
    pub open spec fn record_exists(self, eid: EntityIdVer) -> bool {
        select(self.records, eid).len() > 0
    }

    /// Whether the version `eid` of a link is stored.
    pub open spec fn link_exists(self, eid: EntityIdVer) -> bool {
        select(self.links, eid).len() > 0
    }

    /// The tables after the version `eid` of a record is deleted, with its
    /// tags and its attributes.
    pub open spec fn record_del(self, eid: EntityIdVer) -> TablesView {
        let without_ta = self.tags_and_attributes_del(eid);
        TablesView { records: remove(without_ta.records, eid), ..without_ta }
    }

    /// The tables after the version `eid` of a link is deleted, with its
    /// tags and its attributes.
    pub open spec fn link_del(self, eid: EntityIdVer) -> TablesView {
        let without_ta = self.tags_and_attributes_del(eid);
        TablesView { links: remove(without_ta.links, eid), ..without_ta }
    }

    /// `eid` is the latest version of a record.
    pub open spec fn is_latest_record(self, eid: EntityIdVer) -> bool {
        self.record_get_ver_latest(eid.id) == Some(eid.ver)
    }

    /// `eid` is the latest version of a link.
    pub open spec fn is_latest_link(self, eid: EntityIdVer) -> bool {
        self.link_get_ver_latest(eid.id) == Some(eid.ver)
    }
}

/// The stored version that `eid` stands for, given the latest version of
/// its entity.
pub open spec fn resolve(eid: EntityIdVer, latest: Option<u64>) -> Option<EntityIdVer> {
    if eid.ver == ENTITY_VER_LATEST {
        match latest {
            None => None,
            Some(ver) => Some(EntityIdVer { id: eid.id, ver }),
        }
    } else {
        Some(eid)
    }
}

/// The identifier of an entity that is put: the one given, or the next one.
pub open spec fn assigned_id(given: Option<EntityId>, next: Option<EntityId>) -> Option<EntityId> {
    match given {
        Some(id) => Some(id),
        None => next,
    }
}

/// The reference of the version that a put adds to the entity `id`, given
/// the latest version of `id`.
pub open spec fn assigned_ref(id: EntityId, latest: Option<u64>) -> Result<
    EntityIdVer,
    DataErrorView,
> {
    match next_version_of(latest) {
        None => Err(DataErrorView::VersionsExhausted { id }),
        Some(ver) => Ok(EntityIdVer { id, ver }),
    }
}

impl TablesView {
    /// The versions of the record `id` are a run that starts at the first
    /// version and has no gap: a version is stored exactly if it is neither
    /// below the first nor above the latest.
    pub open spec fn record_versions_contiguous(self, id: EntityId) -> bool {
        forall|ver: u64| #[trigger]
            self.record_exists(EntityIdVer { id, ver }) <==> (self.record_get_ver_latest(
                id,
            ) matches Some(latest) && ENTITY_VER_FIRST <= ver <= latest)
    }

    /// No identifier is the identifier of a record and of a link.
    pub open spec fn ids_disjoint(self) -> bool {
        forall|record: EntityIdVer, link: EntityIdVer|
            #[trigger] self.record_exists(record) && #[trigger] self.link_exists(link)
                ==> record.id != link.id
    }

    /// The version `eid` can be read: it has no tag twice, no attribute key
    /// twice, and at most one payload row.
    pub open spec fn clean_at(self, eid: EntityIdVer) -> bool {
        &&& self.tags_get(eid) is Ok
        &&& self.attributes_get(eid) is Ok
        &&& select(self.records, eid).len() <= 1
    }

    /// Every version of every entity can be read.
    pub open spec fn clean(self) -> bool {
        forall|eid: EntityIdVer| #[trigger] self.clean_at(eid)
    }
}

} // verus!
