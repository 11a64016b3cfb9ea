//! A container that keeps its tables in memory.
//!
//! It does to its tables exactly what the transaction contract says, so that
//! what the contract promises of a container can be proved of this one.

use crate::container::rows::{
    attributes_from_rows, attributes_view, endpoints_from_rows, is_latest_view, latest_refs,
    latest_version, lemma_latest_view_members, link_rows, next_entity_id, next_version,
    payload_from_rows, resolve_ref, tags_from_rows, tags_view, versions_of_id,
};
use crate::container::tables::{
    copy_payload, delete_rows, keys, row_keys, rows_for, Tables, TablesView,
};
use crate::container::{Container, ContainerTransaction, DataError, DataErrorView};
use crate::entity::{
    EntityId, EntityIdVer, Link, LinkView, Record, RecordView, SearchResult, SearchResultView,
    TagsAndAttributes, TagsAndAttributesView,
};
use crate::search::{
    found_links, found_records, lemma_attribute_results, lemma_found_entities_distinct,
    lemma_found_links, lemma_found_records, lemma_tag_results, links_view, records_view,
    search_attributes, search_entities, search_tags,
};
use crate::entity::keys_of;
use crate::search_query::SearchQuery;
use vstd::prelude::*;

verus! {

/// Why an operation on the container itself failed.
#[derive(Clone, Copy, Debug, PartialEq, Eq, Structural)]
pub enum ContainerMemoryError {
    /// The tables cannot be created: they are there.
    TablesExist,
    /// The tables cannot be used or destroyed: they are not there.
    NoTables,
}

/// A container in memory. It has no tables until they are created.
#[derive(Debug)]
pub struct ContainerMemory {
    pub tables: Option<Tables>,
}

impl View for ContainerMemory {
    type V = Option<TablesView>;

    open spec fn view(&self) -> Option<TablesView> {
        match self.tables {
            None => None,
            Some(tables) => Some(tables@),
        }
    }
}

/// A unit of work on a [`ContainerMemory`]. It works on tables of its own,
/// which `commit` hands to the container and `rollback` drops. While it
/// lives, the container is borrowed to it, so there is no second one.
#[derive(Debug)]
pub struct ContainerMemoryTransaction<'a> {
    pub container: &'a mut ContainerMemory,
    pub tables: Tables,
}

impl<'a> View for ContainerMemoryTransaction<'a> {
    type V = TablesView;

    open spec fn view(&self) -> TablesView {
        self.tables@
    }
}

/// Adds to the table one row of `eid` for each tag.
fn append_tags(table: &mut Vec<(EntityIdVer, String)>, eid: &EntityIdVer, tags: &[String])
    ensures
        final(table).deep_view() == old(table).deep_view() + rows_for(*eid, tags.deep_view()),
{
    let ghost before = table.deep_view();
    let ghost all = tags.deep_view();
    let n: usize = tags.len();
    let mut i: usize = 0;
    assert(table.deep_view() =~= before + rows_for(*eid, all.take(0)));
    while i < n
        invariant
            n == tags.len(),
            all == tags.deep_view(),
            i <= n,
            table.deep_view() == before + rows_for(*eid, all.take(i as int)),
        decreases n - i,
    {
        let ghost shorter = table.deep_view();
        table.push((*eid, tags[i].clone()));
        assert(table.deep_view() =~= shorter.push((*eid, all[i as int])));
        assert(shorter.push((*eid, all[i as int])) =~= before + rows_for(*eid, all.take(i + 1)));
        i += 1;
    }
    assert(all.take(n as int) =~= all);
}

/// Adds to the table one row of `eid` for each attribute.
fn append_attributes(
    table: &mut Vec<(EntityIdVer, (String, String))>,
    eid: &EntityIdVer,
    attributes: &[(String, String)],
)
    ensures
        final(table).deep_view() == old(table).deep_view() + rows_for(
            *eid,
            attributes.deep_view(),
        ),
{
    let ghost before = table.deep_view();
    let ghost all = attributes.deep_view();
    let n: usize = attributes.len();
    let mut i: usize = 0;
    assert(table.deep_view() =~= before + rows_for(*eid, all.take(0)));
    while i < n
        invariant
            n == attributes.len(),
            all == attributes.deep_view(),
            i <= n,
            table.deep_view() == before + rows_for(*eid, all.take(i as int)),
        decreases n - i,
    {
        let ghost shorter = table.deep_view();
        let key = attributes[i].0.clone();
        let value = attributes[i].1.clone();
        table.push((*eid, (key, value)));
        assert(all[i as int] == (attributes@[i as int].0@, attributes@[i as int].1@));
        assert(table.deep_view() =~= shorter.push((*eid, all[i as int])));
        assert(shorter.push((*eid, all[i as int])) =~= before + rows_for(*eid, all.take(i + 1)));
        i += 1;
    }
    assert(all.take(n as int) =~= all);
}

/// Adds to the table one row of `eid` for each endpoint on one side.
fn append_endpoints(
    table: &mut Vec<(EntityIdVer, (bool, EntityIdVer))>,
    eid: &EntityIdVer,
    is_to: bool,
    side: &Vec<EntityIdVer>,
)
    ensures
        final(table).deep_view() == old(table).deep_view() + rows_for(
            *eid,
            Seq::new(side@.len(), |i: int| (is_to, side@[i])),
        ),
{
    let ghost before = table.deep_view();
    let ghost all = Seq::new(side@.len(), |i: int| (is_to, side@[i]));
    let n: usize = side.len();
    let mut i: usize = 0;
    assert(table.deep_view() =~= before + rows_for(*eid, all.take(0)));
    while i < n
        invariant
            n == side.len(),
            all == Seq::new(side@.len(), |i: int| (is_to, side@[i])),
            i <= n,
            table.deep_view() == before + rows_for(*eid, all.take(i as int)),
        decreases n - i,
    {
        let ghost shorter = table.deep_view();
        table.push((*eid, (is_to, side[i])));
        assert(table.deep_view() =~= shorter.push((*eid, all[i as int])));
        assert(shorter.push((*eid, all[i as int])) =~= before + rows_for(*eid, all.take(i + 1)));
        i += 1;
    }
    assert(all.take(n as int) =~= all);
}

/// The model of a result of tags and attributes.
pub open spec fn tags_and_attributes_view(r: Result<TagsAndAttributes, DataError>) -> Result<
    TagsAndAttributesView,
    DataErrorView,
> {
    match r {
        Ok(ta) => Ok(ta@),
        Err(e) => Err(e@),
    }
}

/// The model of a result of an optional record.
pub open spec fn record_view(r: Result<Option<Record>, DataError>) -> Result<
    Option<RecordView>,
    DataErrorView,
> {
    match r {
        Ok(None) => Ok(None),
        Ok(Some(record)) => Ok(Some(record@)),
        Err(e) => Err(e@),
    }
}

/// The model of a result of an optional link.
pub open spec fn link_view(r: Result<Option<Link>, DataError>) -> Result<
    Option<LinkView>,
    DataErrorView,
> {
    match r {
        Ok(None) => Ok(None),
        Ok(Some(link)) => Ok(Some(link@)),
        Err(e) => Err(e@),
    }
}

/// The model of a result of a reference.
pub open spec fn ref_view(r: Result<EntityIdVer, DataError>) -> Result<EntityIdVer, DataErrorView> {
    match r {
        Ok(eid) => Ok(eid),
        Err(e) => Err(e@),
    }
}

/// The model of a result of search results.
pub open spec fn results_view(r: Result<Vec<SearchResult>, DataError>) -> Result<
    Seq<SearchResultView>,
    DataErrorView,
> {
    match r {
        Ok(found) => Ok(found.deep_view()),
        Err(e) => Err(e@),
    }
}

impl<'a> ContainerMemoryTransaction<'a> {
    /// The stored version `at` of a record, or nothing where it is not
    /// stored.
    fn record_at(&self, at: &EntityIdVer) -> (r: Result<Option<Record>, DataError>)
        ensures
            record_view(r) == self@.record_at(*at),
            r matches Ok(Some(record)) ==> record@.wf(),
    {
        let data = match payload_from_rows(at, self.tables.select_payloads(at)) {
            Err(e) => {
                return Err(e);
            },
            Ok(None) => {
                return Ok(None);
            },
            Ok(Some(data)) => data,
        };
        match self.tags_and_attributes_get(at) {
            Err(e) => Err(e),
            Ok(ta) => Ok(Some(Record { ta, data })),
        }
    }

    /// The stored version `at` of a link, or nothing where it is not stored.
    fn link_at(&self, at: &EntityIdVer) -> (r: Result<Option<Link>, DataError>)
        ensures
            link_view(r) == self@.link_at(*at),
            r matches Ok(Some(link)) ==> link@.wf(),
    {
        let rows = self.tables.select_links(at);
        if rows.len() == 0 {
            return Ok(None);
        }
        let (from, to) = endpoints_from_rows(&rows);
        match self.tags_and_attributes_get(at) {
            Err(e) => Err(e),
            Ok(ta) => Ok(Some(Link { ta, from, to })),
        }
    }

    /// The reference for the next version of the entity `eid`, or of a new
    /// entity where no identifier is given.
    fn assign_ref(&self, eid: &Option<EntityId>, latest_of: &Vec<EntityIdVer>) -> (r: Result<
        EntityIdVer,
        DataError,
    >)
        ensures
            ref_view(r) == match crate::container::contract::assigned_id(*eid, self@.next_id()) {
                None => Err(DataErrorView::IdsExhausted),
                Some(id) => crate::container::contract::assigned_ref(
                    id,
                    crate::container::rows::latest_version_of(latest_of@, id),
                ),
            },
    {
        let id = match eid {
            Some(id) => *id,
            None => {
                let records = row_keys(&self.tables.records);
                let links = row_keys(&self.tables.links);
                match next_entity_id(&records, &links) {
                    None => {
                        return Err(DataError::IdsExhausted);
                    },
                    Some(id) => id,
                }
            },
        };
        let versions = versions_of_id(latest_of, &id);
        match next_version(latest_version(&versions)) {
            None => Err(DataError::VersionsExhausted { id }),
            Some(ver) => Ok(EntityIdVer::new(id, ver)),
        }
    }

    /// The latest version of every record, with its reference.
    fn latest_records(&self) -> (r: Result<Vec<(EntityIdVer, Record)>, DataError>)
        ensures
            match r {
                Ok(list) => {
                    &&& forall|i: int, j: int|
                        0 <= i < j < list.len() ==> (#[trigger] list@[i]).0 != (
                        #[trigger] list@[j]).0
                    &&& forall|i: int|
                        0 <= i < list.len() ==> self@.is_latest_record((#[trigger] list@[i]).0)
                            && self@.record_at(list@[i].0) == Ok::<
                            Option<RecordView>,
                            DataErrorView,
                        >(Some(list@[i].1@))
                    &&& forall|at: EntityIdVer| #[trigger]
                        self@.is_latest_record(at) ==> self@.record_at(at) is Ok && (
                        self@.record_at(at) matches Ok(Some(_)) ==> exists|i: int|
                            0 <= i < list.len() && (#[trigger] list@[i]).0 == at)
                },
                Err(e) => exists|at: EntityIdVer|
                    self@.is_latest_record(at) && #[trigger] self@.record_at(at) == Err::<
                        Option<RecordView>,
                        DataErrorView,
                    >(e@),
            },
    {
        let refs = row_keys(&self.tables.records);
        let ids = latest_refs(&refs);
        let mut list: Vec<(EntityIdVer, Record)> = Vec::new();
        let ghost mut source: Seq<int> = Seq::empty();
        let n: usize = ids.len();
        let mut i: usize = 0;
        while i < n
            invariant
                n == ids.len(),
                i <= n,
                refs@ == keys(self@.records),
                is_latest_view(ids@, refs@),
                source.len() == list.len(),
                forall|k: int| 0 <= k < source.len() ==> 0 <= #[trigger] source[k] < i,
                forall|k: int, m: int|
                    0 <= k < m < source.len() ==> #[trigger] source[k] < #[trigger] source[m],
                forall|k: int|
                    0 <= k < list.len() ==> (#[trigger] list@[k]).0 == ids@[source[k]]
                        && self@.record_at(list@[k].0) == Ok::<Option<RecordView>, DataErrorView>(
                        Some(list@[k].1@),
                    ),
                forall|j: int|
                    0 <= j < i ==> (#[trigger] self@.record_at(ids@[j])) is Ok && (
                    self@.record_at(ids@[j]) matches Ok(Some(_)) ==> exists|k: int|
                        0 <= k < list.len() && (#[trigger] list@[k]).0 == ids@[j]),
            decreases n - i,
        {
            let at: EntityIdVer = ids[i];
            proof {
                lemma_latest_view_members(ids@, refs@, at);
            }
            match self.record_at(&at) {
                Err(e) => {
                    assert(self@.is_latest_record(at));
                    return Err(e);
                },
                Ok(None) => {},
                Ok(Some(record)) => {
                    let ghost before = list@;
                    list.push((at, record));
                    proof {
                        source = source.push(i as int);
                        assert forall|j: int| 0 <= j < i + 1 implies (#[trigger] self@.record_at(
                            ids@[j],
                        )) is Ok && (self@.record_at(ids@[j]) matches Ok(Some(_)) ==> exists|k: int|
                            0 <= k < list.len() && (#[trigger] list@[k]).0 == ids@[j]) by {
                            if j < i {
                                if self@.record_at(ids@[j]) matches Ok(Some(_)) {
                                    let k = choose|k: int|
                                        0 <= k < before.len() && (#[trigger] before[k]).0
                                            == ids@[j];
                                    assert(list@[k].0 == ids@[j]);
                                }
                            } else {
                                assert(list@[list.len() - 1].0 == ids@[j]);
                            }
                        }
                    }
                },
            }
            i += 1;
        }
        proof {
            assert forall|k: int, m: int| 0 <= k < m < list.len() implies (#[trigger] list@[k]).0
                != (#[trigger] list@[m]).0 by {
                assert(ids@[source[k]].id != ids@[source[m]].id);
            }
            assert forall|k: int| 0 <= k < list.len() implies self@.is_latest_record(
                (#[trigger] list@[k]).0,
            ) && self@.record_at(list@[k].0) == Ok::<Option<RecordView>, DataErrorView>(
                Some(list@[k].1@),
            ) by {
                lemma_latest_view_members(ids@, refs@, list@[k].0);
                assert(ids@[source[k]] == list@[k].0);
            }
            assert forall|at: EntityIdVer| #[trigger]
                self@.is_latest_record(at) implies self@.record_at(at) is Ok && (self@.record_at(
                at,
            ) matches Ok(Some(_)) ==> exists|k: int|
                0 <= k < list.len() && (#[trigger] list@[k]).0 == at) by {
                lemma_latest_view_members(ids@, refs@, at);
                let j = choose|j: int| 0 <= j < ids@.len() && ids@[j] == at;
                assert((self@.record_at(ids@[j])) is Ok);
            }
        }
        Ok(list)
    }

    /// The latest version of every link, with its reference.
    fn latest_links(&self) -> (r: Result<Vec<(EntityIdVer, Link)>, DataError>)
        ensures
            match r {
                Ok(list) => {
                    &&& forall|i: int, j: int|
                        0 <= i < j < list.len() ==> (#[trigger] list@[i]).0 != (
                        #[trigger] list@[j]).0
                    &&& forall|i: int|
                        0 <= i < list.len() ==> self@.is_latest_link((#[trigger] list@[i]).0)
                            && self@.link_at(list@[i].0) == Ok::<Option<LinkView>, DataErrorView>(
                            Some(list@[i].1@),
                        )
                    &&& forall|at: EntityIdVer| #[trigger]
                        self@.is_latest_link(at) ==> self@.link_at(at) is Ok && (self@.link_at(
                            at,
                        ) matches Ok(Some(_)) ==> exists|i: int|
                            0 <= i < list.len() && (#[trigger] list@[i]).0 == at)
                },
                Err(e) => exists|at: EntityIdVer|
                    self@.is_latest_link(at) && #[trigger] self@.link_at(at) == Err::<
                        Option<LinkView>,
                        DataErrorView,
                    >(e@),
            },
    {
        let refs = row_keys(&self.tables.links);
        let ids = latest_refs(&refs);
        let mut list: Vec<(EntityIdVer, Link)> = Vec::new();
        let ghost mut source: Seq<int> = Seq::empty();
        let n: usize = ids.len();
        let mut i: usize = 0;
        while i < n
            invariant
                n == ids.len(),
                i <= n,
                refs@ == keys(self@.links),
                is_latest_view(ids@, refs@),
                source.len() == list.len(),
                forall|k: int| 0 <= k < source.len() ==> 0 <= #[trigger] source[k] < i,
                forall|k: int, m: int|
                    0 <= k < m < source.len() ==> #[trigger] source[k] < #[trigger] source[m],
                forall|k: int|
                    0 <= k < list.len() ==> (#[trigger] list@[k]).0 == ids@[source[k]]
                        && self@.link_at(list@[k].0) == Ok::<Option<LinkView>, DataErrorView>(
                        Some(list@[k].1@),
                    ),
                forall|j: int|
                    0 <= j < i ==> (#[trigger] self@.link_at(ids@[j])) is Ok && (self@.link_at(
                        ids@[j],
                    ) matches Ok(Some(_)) ==> exists|k: int|
                        0 <= k < list.len() && (#[trigger] list@[k]).0 == ids@[j]),
            decreases n - i,
        {
            let at: EntityIdVer = ids[i];
            proof {
                lemma_latest_view_members(ids@, refs@, at);
            }
            match self.link_at(&at) {
                Err(e) => {
                    assert(self@.is_latest_link(at));
                    return Err(e);
                },
                Ok(None) => {},
                Ok(Some(link)) => {
                    let ghost before = list@;
                    list.push((at, link));
                    proof {
                        source = source.push(i as int);
                        assert forall|j: int| 0 <= j < i + 1 implies (#[trigger] self@.link_at(
                            ids@[j],
                        )) is Ok && (self@.link_at(ids@[j]) matches Ok(Some(_)) ==> exists|k: int|
                            0 <= k < list.len() && (#[trigger] list@[k]).0 == ids@[j]) by {
                            if j < i {
                                if self@.link_at(ids@[j]) matches Ok(Some(_)) {
                                    let k = choose|k: int|
                                        0 <= k < before.len() && (#[trigger] before[k]).0
                                            == ids@[j];
                                    assert(list@[k].0 == ids@[j]);
                                }
                            } else {
                                assert(list@[list.len() - 1].0 == ids@[j]);
                            }
                        }
                    }
                },
            }
            i += 1;
        }
        proof {
            assert forall|k: int, m: int| 0 <= k < m < list.len() implies (#[trigger] list@[k]).0
                != (#[trigger] list@[m]).0 by {
                assert(ids@[source[k]].id != ids@[source[m]].id);
            }
            assert forall|k: int| 0 <= k < list.len() implies self@.is_latest_link(
                (#[trigger] list@[k]).0,
            ) && self@.link_at(list@[k].0) == Ok::<Option<LinkView>, DataErrorView>(
                Some(list@[k].1@),
            ) by {
                lemma_latest_view_members(ids@, refs@, list@[k].0);
                assert(ids@[source[k]] == list@[k].0);
            }
            assert forall|at: EntityIdVer| #[trigger]
                self@.is_latest_link(at) implies self@.link_at(at) is Ok && (self@.link_at(
                at,
            ) matches Ok(Some(_)) ==> exists|k: int|
                0 <= k < list.len() && (#[trigger] list@[k]).0 == at) by {
                lemma_latest_view_members(ids@, refs@, at);
                let j = choose|j: int| 0 <= j < ids@.len() && ids@[j] == at;
                assert((self@.link_at(ids@[j])) is Ok);
            }
        }
        Ok(list)
    }

}

impl<'a> ContainerTransaction for ContainerMemoryTransaction<'a> {
    type Error = DataError;

    open spec fn rows(&self) -> Option<TablesView> {
        Some(self@)
    }

    open spec fn data_error(e: DataError) -> Option<DataErrorView> {
        Some(e@)
    }

    /// Ends the transaction and hands its rows to the container.
    fn commit(self) -> (r: Result<(), DataError>)
        ensures
            r is Ok,
            final(self.container)@ == Some(self@),
    {
        let ContainerMemoryTransaction { container, tables } = self;
        container.tables = Some(tables);
        Ok(())
    }

    /// Ends the transaction and leaves the container as it was.
    fn rollback(self) -> (r: Result<(), DataError>)
        ensures
            r is Ok,
            *final(self.container) == *old(self.container),
    {
        Ok(())
    }

    /// Searches the container.
    ///
    /// A search for tags gives every distinct tag of the container that has
    /// one of the substrings of the query, or every distinct tag where the
    /// query has none. A search for attributes does the same with the
    /// distinct pairs of a key and a value. A search for records and links
    /// gives the latest version of every record and of every link that the
    /// query finds, the records first; with an empty query it gives nothing.
    fn search(&self, query: &SearchQuery) -> (r: Result<Vec<SearchResult>, DataError>)
        ensures
            self@.is_search_result(query@, results_view(r)),
    {
        match query {
            SearchQuery::Tags(q) => {
                let tags = self.tables.all_tags();
                proof {
                    lemma_tag_results(q@, tags.deep_view());
                }
                Ok(search_tags(q, &tags))
            },
            SearchQuery::Attributes(q) => {
                let attributes = self.tables.all_attributes();
                proof {
                    lemma_attribute_results(q@, attributes.deep_view());
                }
                Ok(search_attributes(q, &attributes))
            },
            SearchQuery::RecordsAndLinks(q) => {
                if q.is_empty() {
                    let found: Vec<SearchResult> = Vec::new();
                    assert(found.deep_view() =~= Seq::empty());
                    return Ok(found);
                }
                let records = match self.latest_records() {
                    Err(e) => {
                        return Err(e);
                    },
                    Ok(records) => records,
                };
                let links = match self.latest_links() {
                    Err(e) => {
                        return Err(e);
                    },
                    Ok(links) => links,
                };
                let found = search_entities(q, &records, &links);
                proof {
                    let all_records = records_view(records@);
                    let all_links = links_view(links@);
                    let of_records = found_records(q@, all_records);
                    let of_links = found_links(q@, all_links);
                    lemma_found_entities_distinct(q@, all_records, all_links);
                    assert forall|result: SearchResultView| #[trigger]
                        found.deep_view().contains(result) <==> self@.finds(q@, result) by {
                        lemma_found_records(q@, all_records, result);
                        lemma_found_links(q@, all_links, result);
                        let all = of_records + of_links;
                        if all.contains(result) {
                            let k = choose|k: int| 0 <= k < all.len() && all[k] == result;
                            if k < of_records.len() {
                                assert(of_records[k] == result);
                                let i = choose|i: int|
                                    0 <= i < all_records.len() && result
                                        == SearchResultView::Record((#[trigger] all_records[i]).0)
                                        && q@.matches_record(all_records[i].1);
                                assert(all_records[i] == (records@[i].0, records@[i].1@));
                            } else {
                                assert(of_links[k - of_records.len()] == result);
                                let i = choose|i: int|
                                    0 <= i < all_links.len() && result == SearchResultView::Link(
                                        (#[trigger] all_links[i]).0,
                                    ) && q@.matches_link(all_links[i].1);
                                assert(all_links[i] == (links@[i].0, links@[i].1@));
                            }
                        }
                        if self@.finds(q@, result) {
                            match result {
                                SearchResultView::Record(at) => {
                                    let i = choose|i: int|
                                        0 <= i < records.len() && (#[trigger] records@[i]).0 == at;
                                    assert(all_records[i] == (records@[i].0, records@[i].1@));
                                    assert(of_records.contains(result));
                                    let k = choose|k: int|
                                        0 <= k < of_records.len() && of_records[k] == result;
                                    assert(all[k] == result);
                                },
                                SearchResultView::Link(at) => {
                                    let i = choose|i: int|
                                        0 <= i < links.len() && (#[trigger] links@[i]).0 == at;
                                    assert(all_links[i] == (links@[i].0, links@[i].1@));
                                    assert(of_links.contains(result));
                                    let k = choose|k: int|
                                        0 <= k < of_links.len() && of_links[k] == result;
                                    assert(all[of_records.len() + k] == result);
                                },
                                _ => {},
                            }
                        }
                    }
                    let all = found.deep_view();
                    assert forall|i: int| 0 <= i < all.len() implies (#[trigger] all[i]) is Record
                        || all[i] is Link by {
                        assert(all.contains(all[i]));
                        assert(self@.finds(q@, all[i]));
                    }
                }
                Ok(found)
            },
        }
    }

    /// The tags of `eid`, in the order in which they were put. Fails where
    /// a tag is stored twice.
    fn tags_get(&self, eid: &EntityIdVer) -> (r: Result<Vec<String>, DataError>)
        ensures
            tags_view(r) == self@.tags_get(*eid),
    {
        tags_from_rows(eid, self.tables.select_tags(eid))
    }

    /// Adds the tags to those of `eid`.
    fn tags_put(&mut self, eid: &EntityIdVer, tags: &[String]) -> (r: Result<(), DataError>)
        ensures
            r is Ok,
            final(self)@ == old(self)@.tags_put(*eid, tags.deep_view()),
            final(self).container == old(self).container,
    {
        append_tags(&mut self.tables.tags, eid, tags);
        Ok(())
    }

    /// Deletes the tags of `eid`.
    fn tags_del(&mut self, eid: &EntityIdVer) -> (r: Result<(), DataError>)
        ensures
            r is Ok,
            final(self)@ == old(self)@.tags_del(*eid),
            final(self).container == old(self).container,
    {
        let _ = delete_rows(&mut self.tables.tags, eid);
        Ok(())
    }

    /// The attributes of `eid`, in the order in which they were put. Fails
    /// where a key is stored twice.
    fn attributes_get(&self, eid: &EntityIdVer) -> (r: Result<
        Vec<(String, String)>,
        DataError,
    >)
        ensures
            attributes_view(r) == self@.attributes_get(*eid),
    {
        attributes_from_rows(eid, self.tables.select_attributes(eid))
    }

    /// Adds the attributes to those of `eid`.
    fn attributes_put(&mut self, eid: &EntityIdVer, attributes: &[(String, String)]) -> (r:
        Result<(), DataError>)
        ensures
            r is Ok,
            final(self)@ == old(self)@.attributes_put(*eid, attributes.deep_view()),
            final(self).container == old(self).container,
    {
        append_attributes(&mut self.tables.attributes, eid, attributes);
        Ok(())
    }

    /// Deletes the attributes of `eid`.
    fn attributes_del(&mut self, eid: &EntityIdVer) -> (r: Result<(), DataError>)
        ensures
            r is Ok,
            final(self)@ == old(self)@.attributes_del(*eid),
            final(self).container == old(self).container,
    {
        let _ = delete_rows(&mut self.tables.attributes, eid);
        Ok(())
    }

    /// The record that `eid` refers to, or nothing where it is not stored.
    /// A reference to the latest version is accepted. Fails where the record
    /// has more than one payload row, a tag twice or a key twice.
    fn record_get(&self, eid: &EntityIdVer) -> (r: Result<Option<Record>, DataError>)
        ensures
            record_view(r) == self@.record_get(*eid),
    {
        let latest = match self.record_get_ver_latest(&eid.id) {
            Ok(latest) => latest,
            Err(e) => {
                return Err(e);
            },
        };
        match resolve_ref(eid, latest) {
            None => Ok(None),
            Some(at) => self.record_at(&at),
        }
    }

    /// Stores the record as the next version of the entity `eid`, or as the
    /// first version of a new entity where no identifier is given, and
    /// returns the reference of the version stored.
    ///
    /// The new version is the first where the record has none, and else one
    /// more than its latest. A new entity gets one more than the highest
    /// identifier of all records and links, or the start value. Nothing is
    /// stored where the identifiers or the versions are exhausted.
    fn record_put(&mut self, eid: &Option<EntityId>, record: &Record) -> (r: Result<
        EntityIdVer,
        DataError,
    >)
        ensures
            ref_view(r) == old(self)@.record_put_ref(*eid),
            final(self)@ == old(self)@.record_put(*eid, record@),
            final(self).container == old(self).container,
    {
        let refs = row_keys(&self.tables.records);
        let at = match self.assign_ref(eid, &refs) {
            Err(e) => {
                return Err(e);
            },
            Ok(at) => at,
        };
        let _ = self.tags_and_attributes_put(&at, &record.ta);
        let ghost before = self.tables.records.deep_view();
        let data = copy_payload(&record.data);
        self.tables.records.push((at, data));
        assert(self.tables.records.deep_view() =~= before.push((at, record@.data)));
        Ok(at)
    }

    /// Deletes the version `eid` of a record with its tags and attributes,
    /// and says whether a payload row was there to delete.
    fn record_del(&mut self, eid: &EntityIdVer) -> (r: Result<bool, DataError>)
        ensures
            r == Ok::<bool, DataError>(old(self)@.record_exists(*eid)),
            final(self)@ == old(self)@.record_del(*eid),
            final(self).container == old(self).container,
    {
        let _ = self.tags_and_attributes_del(eid);
        let count = delete_rows(&mut self.tables.records, eid);
        Ok(count > 0)
    }

    /// The reference of the latest version of every record.
    fn record_get_all_ids(&self) -> (r: Result<Vec<EntityIdVer>, DataError>)
        ensures
            r matches Ok(ids) && is_latest_view(ids@, keys(self@.records)),
    {
        let refs = row_keys(&self.tables.records);
        Ok(latest_refs(&refs))
    }

    /// The latest version of the record `id`, if it has a version.
    fn record_get_ver_latest(&self, id: &EntityId) -> (r: Result<Option<u64>, DataError>)
        ensures
            r == Ok::<Option<u64>, DataError>(self@.record_get_ver_latest(*id)),
    {
        let refs = row_keys(&self.tables.records);
        let versions = versions_of_id(&refs, id);
        Ok(latest_version(&versions))
    }

    /// The link that `eid` refers to, or nothing where it is not stored. A
    /// reference to the latest version is accepted. Fails where the link has
    /// a tag twice or a key twice.
    fn link_get(&self, eid: &EntityIdVer) -> (r: Result<Option<Link>, DataError>)
        ensures
            link_view(r) == self@.link_get(*eid),
    {
        let latest = match self.link_get_ver_latest(&eid.id) {
            Ok(latest) => latest,
            Err(e) => {
                return Err(e);
            },
        };
        match resolve_ref(eid, latest) {
            None => Ok(None),
            Some(at) => self.link_at(&at),
        }
    }

    /// Stores the link as the next version of the entity `eid`, or as the
    /// first version of a new entity where no identifier is given, and
    /// returns the reference of the version stored.
    fn link_put(&mut self, eid: &Option<EntityId>, link: &Link) -> (r: Result<
        EntityIdVer,
        DataError,
    >)
        ensures
            ref_view(r) == old(self)@.link_put_ref(*eid),
            final(self)@ == old(self)@.link_put(*eid, link@),
            final(self).container == old(self).container,
    {
        let refs = row_keys(&self.tables.links);
        let at = match self.assign_ref(eid, &refs) {
            Err(e) => {
                return Err(e);
            },
            Ok(at) => at,
        };
        let _ = self.tags_and_attributes_put(&at, &link.ta);
        let ghost before = self.tables.links.deep_view();
        append_endpoints(&mut self.tables.links, &at, false, &link.from);
        append_endpoints(&mut self.tables.links, &at, true, &link.to);
        proof {
            let from_rows = Seq::new(link.from@.len(), |i: int| (false, link.from@[i]));
            let to_rows = Seq::new(link.to@.len(), |i: int| (true, link.to@[i]));
            assert(before + rows_for(at, from_rows) + rows_for(at, to_rows) =~= before + rows_for(
                at,
                link_rows(link@.from, link@.to),
            ));
        }
        Ok(at)
    }

    /// Deletes the version `eid` of a link with its tags and attributes,
    /// and says whether an endpoint row was there to delete.
    fn link_del(&mut self, eid: &EntityIdVer) -> (r: Result<bool, DataError>)
        ensures
            r == Ok::<bool, DataError>(old(self)@.link_exists(*eid)),
            final(self)@ == old(self)@.link_del(*eid),
            final(self).container == old(self).container,
    {
        let _ = self.tags_and_attributes_del(eid);
        let count = delete_rows(&mut self.tables.links, eid);
        Ok(count > 0)
    }

    /// The reference of the latest version of every link.
    fn link_get_all_ids(&self) -> (r: Result<Vec<EntityIdVer>, DataError>)
        ensures
            r matches Ok(ids) && is_latest_view(ids@, keys(self@.links)),
    {
        let refs = row_keys(&self.tables.links);
        Ok(latest_refs(&refs))
    }

    /// The latest version of the link `id`, if it has a version.
    fn link_get_ver_latest(&self, id: &EntityId) -> (r: Result<Option<u64>, DataError>)
        ensures
            r == Ok::<Option<u64>, DataError>(self@.link_get_ver_latest(*id)),
    {
        let refs = row_keys(&self.tables.links);
        let versions = versions_of_id(&refs, id);
        Ok(latest_version(&versions))
    }

    /// The tags and the attributes of `eid`.
    fn tags_and_attributes_get(&self, eid: &EntityIdVer) -> (r: Result<
        TagsAndAttributes,
        DataError,
    >)
        ensures
            tags_and_attributes_view(r) == self@.tags_and_attributes_get(*eid),
    {
        let tags = match self.tags_get(eid) {
            Ok(tags) => tags,
            Err(e) => {
                return Err(e);
            },
        };
        let attributes = match self.attributes_get(eid) {
            Ok(attributes) => attributes,
            Err(e) => {
                return Err(e);
            },
        };
        Ok(TagsAndAttributes { tags, attributes })
    }

    /// Adds the tags and the attributes of `ta` to those of `eid`.
    fn tags_and_attributes_put(&mut self, eid: &EntityIdVer, ta: &TagsAndAttributes) -> (r:
        Result<(), DataError>)
        ensures
            r is Ok,
            final(self)@ == old(self)@.tags_and_attributes_put(*eid, ta@),
            final(self).container == old(self).container,
    {
        let _ = self.tags_put(eid, ta.tags.as_slice());
        self.attributes_put(eid, ta.attributes.as_slice())
    }

    /// Deletes the tags and the attributes of `eid`.
    fn tags_and_attributes_del(&mut self, eid: &EntityIdVer) -> (r: Result<(), DataError>)
        ensures
            r is Ok,
            final(self)@ == old(self)@.tags_and_attributes_del(*eid),
            final(self).container == old(self).container,
    {
        let _ = self.tags_del(eid);
        self.attributes_del(eid)
    }
}

impl Container for ContainerMemory {
    type Error = ContainerMemoryError;

    type Transaction<'a> = ContainerMemoryTransaction<'a>;

    open spec fn tables(&self) -> Option<Option<TablesView>> {
        Some(self@)
    }

    /// A container without tables, whatever `uri` is.
    fn new(uri: &str) -> (r: Result<ContainerMemory, ContainerMemoryError>)
        ensures
            r matches Ok(container) && container@ is None,
    {
        Ok(ContainerMemory { tables: None })
    }

    /// Creates the tables, without rows. Fails where they exist.
    fn create(&mut self) -> (r: Result<(), ContainerMemoryError>)
        ensures
            match old(self)@ {
                None => r is Ok && final(self)@ == Some(TablesView::empty()),
                Some(_) => r == Err::<(), ContainerMemoryError>(ContainerMemoryError::TablesExist)
                    && final(self)@ == old(self)@,
            },
    {
        if self.tables.is_some() {
            return Err(ContainerMemoryError::TablesExist);
        }
        self.tables = Some(Tables::new());
        Ok(())
    }

    /// Destroys the tables, with all their rows. Fails where there are none.
    fn destroy(&mut self) -> (r: Result<(), ContainerMemoryError>)
        ensures
            match old(self)@ {
                None => r == Err::<(), ContainerMemoryError>(ContainerMemoryError::NoTables),
                Some(_) => r is Ok,
            },
            final(self)@ is None,
    {
        if self.tables.is_none() {
            return Err(ContainerMemoryError::NoTables);
        }
        self.tables = None;
        Ok(())
    }

    /// Begins a transaction on the rows that the container holds. Fails
    /// where the container has no tables.
    ///
    /// The container changes when the transaction is committed, and not
    /// before.
    fn begin_transaction<'b>(&'b mut self) -> (r: Result<
        ContainerMemoryTransaction<'b>,
        ContainerMemoryError,
    >)
        ensures
            match r {
                Ok(tx) => old(self)@ == Some(tx@) && *tx.container == *old(self) && *final(self)
                    == *final(tx.container),
                Err(e) => e == ContainerMemoryError::NoTables && old(self)@ is None && *final(self)
                    == *old(self),
            },
    {
        let tables = match &self.tables {
            None => {
                return Err(ContainerMemoryError::NoTables);
            },
            Some(tables) => tables.copy(),
        };
        Ok(ContainerMemoryTransaction { container: self, tables })
    }
}

} // verus!
