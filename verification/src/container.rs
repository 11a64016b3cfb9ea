//! Containers: the storage units that own records and links.

pub mod contract;
pub mod laws;
pub mod memory;
pub mod rows;
pub mod sqlite;
pub mod tables;

use crate::container::rows::is_latest_view;
use crate::container::tables::{keys, TablesView};
use crate::entity::{
    EntityId, EntityIdVer, Link, Record, SearchResult, TagsAndAttributes, ENTITY_VER_LATEST,
};
use crate::search::answers;
use crate::entity::keys_of;
use crate::search_query::SearchQuery;
use vstd::prelude::*;

verus! {

/// Why an operation on the data of a container failed, whatever the
/// container is made of.
///
/// The first three are violations of the data model in what the container
/// holds. They are found when the data is read, and never repaired. The last
/// two say that a new entity or a new version cannot be numbered.
#[derive(Clone, Debug, PartialEq, Eq)]
pub enum DataError {
    /// More than one payload row for one version of a record.
    TooManyRows { eid: EntityIdVer },
    /// The same tag twice on one version of an entity.
    DuplicateTag { eid: EntityIdVer, tag: String },
    /// The same attribute key twice on one version of an entity.
    DuplicateAttribute { eid: EntityIdVer, key: String, value: String },
    /// The highest identifier is in use: there is none for a new entity.
    IdsExhausted,
    /// The highest version of this entity is in use: there is none for a
    /// new version.
    VersionsExhausted { id: EntityId },
}

/// Mathematical model of [`DataError`].
pub enum DataErrorView {
    TooManyRows { eid: EntityIdVer },
    DuplicateTag { eid: EntityIdVer, tag: Seq<char> },
    DuplicateAttribute { eid: EntityIdVer, key: Seq<char>, value: Seq<char> },
    IdsExhausted,
    VersionsExhausted { id: EntityId },
}

impl View for DataError {
    type V = DataErrorView;

    open spec fn view(&self) -> DataErrorView {
        match self {
            DataError::TooManyRows { eid } => DataErrorView::TooManyRows { eid: *eid },
            DataError::DuplicateTag { eid, tag } => DataErrorView::DuplicateTag {
                eid: *eid,
                tag: tag@,
            },
            DataError::DuplicateAttribute {
                eid,
                key,
                value,
            } => DataErrorView::DuplicateAttribute { eid: *eid, key: key@, value: value@ },
            DataError::IdsExhausted => DataErrorView::IdsExhausted,
            DataError::VersionsExhausted { id } => DataErrorView::VersionsExhausted { id: *id },
        }
    }
}

/// A unit of work on a container: the operations that every container
/// offers on its records and links, whatever it is made of.
///
/// A container that can tell which rows its transaction works on says so in
/// [`rows`](ContainerTransaction::rows). Of such a container every operation
/// is bound to the transaction contract on these rows: it returns what the
/// contract says, and changes the rows as the contract says. Of a container
/// that cannot tell, as one whose rows are in a database, the operations
/// promise what holds of every result.
pub trait ContainerTransaction: Sized {
    /// Why an operation failed.
    type Error;

    /// The rows that the transaction works on, where the container can tell.
    spec fn rows(&self) -> Option<TablesView>;

    /// The error in the data that `e` stands for, if it stands for one.
    spec fn data_error(e: Self::Error) -> Option<DataErrorView>;

    /// Ends the transaction and keeps what it did.
    fn commit(self) -> (r: Result<(), Self::Error>);

    /// Ends the transaction and drops what it did.
    fn rollback(self) -> (r: Result<(), Self::Error>);

    /// Searches the container.
    fn search(&self, search_query: &SearchQuery) -> (r: Result<Vec<SearchResult>, Self::Error>)
        ensures
            self.rows() matches Some(t) ==> match r {
                Ok(found) => t.is_search_result(search_query@, Ok(found.deep_view())),
                Err(x) => Self::data_error(x) matches Some(e) && t.is_search_result(
                    search_query@,
                    Err(e),
                ),
            },
            r matches Ok(found) ==> answers(search_query@, found.deep_view()),
    ;

    /// The tags of `eid`. Fails where a tag is stored twice.
    fn tags_get(&self, eid: &EntityIdVer) -> (r: Result<Vec<String>, Self::Error>)
        ensures
            self.rows() matches Some(t) ==> match t.tags_get(*eid) {
                Ok(tags) => r matches Ok(found) && found.deep_view() == tags,
                Err(e) => r matches Err(x) && Self::data_error(x) == Some(e),
            },
            r matches Ok(found) ==> found.deep_view().no_duplicates(),
    ;

    /// Adds the tags to those of `eid`.
    fn tags_put(&mut self, eid: &EntityIdVer, tags: &[String]) -> (r: Result<(), Self::Error>)
        ensures
            old(self).rows() matches Some(t) ==> r is Ok && final(self).rows() == Some(
                t.tags_put(*eid, tags.deep_view()),
            ),
    ;

    /// Deletes the tags of `eid`.
    fn tags_del(&mut self, eid: &EntityIdVer) -> (r: Result<(), Self::Error>)
        ensures
            old(self).rows() matches Some(t) ==> r is Ok && final(self).rows() == Some(
                t.tags_del(*eid),
            ),
    ;

    /// The attributes of `eid`. Fails where a key is stored twice.
    fn attributes_get(&self, eid: &EntityIdVer) -> (r: Result<Vec<(String, String)>, Self::Error>)
        ensures
            self.rows() matches Some(t) ==> match t.attributes_get(*eid) {
                Ok(attributes) => r matches Ok(found) && found.deep_view() == attributes,
                Err(e) => r matches Err(x) && Self::data_error(x) == Some(e),
            },
            r matches Ok(found) ==> keys_of(found.deep_view()).no_duplicates(),
    ;

    /// Adds the attributes to those of `eid`.
    fn attributes_put(&mut self, eid: &EntityIdVer, attributes: &[(String, String)]) -> (r: Result<
        (),
        Self::Error,
    >)
        ensures
            old(self).rows() matches Some(t) ==> r is Ok && final(self).rows() == Some(
                t.attributes_put(*eid, attributes.deep_view()),
            ),
    ;

    /// Deletes the attributes of `eid`.
    fn attributes_del(&mut self, eid: &EntityIdVer) -> (r: Result<(), Self::Error>)
        ensures
            old(self).rows() matches Some(t) ==> r is Ok && final(self).rows() == Some(
                t.attributes_del(*eid),
            ),
    ;

    /// The record that `eid` refers to, or nothing where it is not stored.
    /// A reference to the latest version is accepted.
    fn record_get(&self, eid: &EntityIdVer) -> (r: Result<Option<Record>, Self::Error>)
        ensures
            self.rows() matches Some(t) ==> match t.record_get(*eid) {
                Ok(None) => r matches Ok(None),
                Ok(Some(record)) => r matches Ok(Some(found)) && found@ == record,
                Err(e) => r matches Err(x) && Self::data_error(x) == Some(e),
            },
            r matches Ok(Some(found)) ==> found@.wf(),
    ;

    /// Stores the record as the next version of the entity `eid`, or as the
    /// first version of a new entity where no identifier is given, and
    /// returns the reference of the version stored.
    fn record_put(&mut self, eid: &Option<EntityId>, record: &Record) -> (r: Result<
        EntityIdVer,
        Self::Error,
    >)
        ensures
            old(self).rows() matches Some(t) ==> final(self).rows() == Some(
                t.record_put(*eid, record@),
            ) && match t.record_put_ref(*eid) {
                Ok(at) => r matches Ok(put) && put == at,
                Err(e) => r matches Err(x) && Self::data_error(x) == Some(e),
            },
            r matches Ok(put) ==> put.ver != ENTITY_VER_LATEST && (*eid matches Some(id) ==> put.id
                == id),
    ;

    /// Deletes the version `eid` of a record with its tags and attributes,
    /// and says whether a payload row was there to delete.
    fn record_del(&mut self, eid: &EntityIdVer) -> (r: Result<bool, Self::Error>)
        ensures
            old(self).rows() matches Some(t) ==> (r matches Ok(deleted) && deleted
                == t.record_exists(*eid)) && final(self).rows() == Some(t.record_del(*eid)),
    ;

    /// The reference of the latest version of every record.
    fn record_get_all_ids(&self) -> (r: Result<Vec<EntityIdVer>, Self::Error>)
        ensures
            self.rows() matches Some(t) ==> r matches Ok(ids) && is_latest_view(
                ids@,
                keys(t.records),
            ),
            r matches Ok(ids) ==> forall|i: int, j: int|
                0 <= i < j < ids.len() ==> (#[trigger] ids@[i]).id != (#[trigger] ids@[j]).id,
    ;

    /// The latest version of the record `id`, if it has a version.
    fn record_get_ver_latest(&self, id: &EntityId) -> (r: Result<Option<u64>, Self::Error>)
        ensures
            self.rows() matches Some(t) ==> r matches Ok(latest) && latest
                == t.record_get_ver_latest(*id),
    ;

    /// The link that `eid` refers to, or nothing where it is not stored. A
    /// reference to the latest version is accepted.
    fn link_get(&self, eid: &EntityIdVer) -> (r: Result<Option<Link>, Self::Error>)
        ensures
            self.rows() matches Some(t) ==> match t.link_get(*eid) {
                Ok(None) => r matches Ok(None),
                Ok(Some(link)) => r matches Ok(Some(found)) && found@ == link,
                Err(e) => r matches Err(x) && Self::data_error(x) == Some(e),
            },
            r matches Ok(Some(found)) ==> found@.wf(),
    ;

    /// Stores the link as the next version of the entity `eid`, or as the
    /// first version of a new entity where no identifier is given, and
    /// returns the reference of the version stored.
    fn link_put(&mut self, eid: &Option<EntityId>, link: &Link) -> (r: Result<
        EntityIdVer,
        Self::Error,
    >)
        ensures
            old(self).rows() matches Some(t) ==> final(self).rows() == Some(
                t.link_put(*eid, link@),
            ) && match t.link_put_ref(*eid) {
                Ok(at) => r matches Ok(put) && put == at,
                Err(e) => r matches Err(x) && Self::data_error(x) == Some(e),
            },
            r matches Ok(put) ==> put.ver != ENTITY_VER_LATEST && (*eid matches Some(id) ==> put.id
                == id),
    ;

    /// Deletes the version `eid` of a link with its tags and attributes,
    /// and says whether an endpoint row was there to delete.
    fn link_del(&mut self, eid: &EntityIdVer) -> (r: Result<bool, Self::Error>)
        ensures
            old(self).rows() matches Some(t) ==> (r matches Ok(deleted) && deleted
                == t.link_exists(*eid)) && final(self).rows() == Some(t.link_del(*eid)),
    ;

    /// The reference of the latest version of every link.
    fn link_get_all_ids(&self) -> (r: Result<Vec<EntityIdVer>, Self::Error>)
        ensures
            self.rows() matches Some(t) ==> r matches Ok(ids) && is_latest_view(
                ids@,
                keys(t.links),
            ),
            r matches Ok(ids) ==> forall|i: int, j: int|
                0 <= i < j < ids.len() ==> (#[trigger] ids@[i]).id != (#[trigger] ids@[j]).id,
    ;

    /// The latest version of the link `id`, if it has a version.
    fn link_get_ver_latest(&self, id: &EntityId) -> (r: Result<Option<u64>, Self::Error>)
        ensures
            self.rows() matches Some(t) ==> r matches Ok(latest) && latest
                == t.link_get_ver_latest(*id),
    ;

    /// The tags and the attributes of `eid`: what `tags_get` gives with what
    /// `attributes_get` gives.
    fn tags_and_attributes_get(&self, eid: &EntityIdVer) -> (r: Result<
        TagsAndAttributes,
        Self::Error,
    >)
        ensures
            self.rows() matches Some(t) ==> match t.tags_and_attributes_get(*eid) {
                Ok(ta) => r matches Ok(found) && found@ == ta,
                Err(e) => r matches Err(x) && Self::data_error(x) == Some(e),
            },
            r matches Ok(found) ==> found@.wf(),
    {
        let tags = match self.tags_get(eid) {
            Ok(tags) => tags,
            Err(e) => {
                return Err(e);
            },
        };
        let attributes = match self.attributes_get(eid) {
            Ok(attributes) => attributes,
            Err(e) => {
                return Err(e);
            },
        };
        Ok(TagsAndAttributes { tags, attributes })
    }

    /// Adds the tags and the attributes of `ta` to those of `eid`: a
    /// `tags_put`, then an `attributes_put`.
    fn tags_and_attributes_put(&mut self, eid: &EntityIdVer, ta: &TagsAndAttributes) -> (r: Result<
        (),
        Self::Error,
    >)
        ensures
            old(self).rows() matches Some(t) ==> r is Ok && final(self).rows() == Some(
                t.tags_and_attributes_put(*eid, ta@),
            ),
    {
        match self.tags_put(eid, ta.tags.as_slice()) {
            Ok(()) => self.attributes_put(eid, ta.attributes.as_slice()),
            Err(e) => Err(e),
        }
    }

    /// Deletes the tags and the attributes of `eid`: a `tags_del`, then an
    /// `attributes_del`.
    fn tags_and_attributes_del(&mut self, eid: &EntityIdVer) -> (r: Result<(), Self::Error>)
        ensures
            old(self).rows() matches Some(t) ==> r is Ok && final(self).rows() == Some(
                t.tags_and_attributes_del(*eid),
            ),
    {
        match self.tags_del(eid) {
            Ok(()) => self.attributes_del(eid),
            Err(e) => Err(e),
        }
    }
}

/// A storage unit that owns records and links.
///
/// A container is made, its tables are created, it is used through one
/// transaction at a time, and its tables are destroyed. A container that can
/// tell whether it has tables, and which rows they hold, says so in
/// [`tables`](Container::tables).
pub trait Container: Sized {
    /// Why an operation on the container itself failed.
    type Error;

    /// A unit of work on this container.
    type Transaction<'a>: ContainerTransaction where Self: 'a;

    /// What the container holds, where it can tell: no tables, or tables
    /// with their rows.
    spec fn tables(&self) -> Option<Option<TablesView>>;

    /// The container that `uri` names.
    fn new(uri: &str) -> (r: Result<Self, Self::Error>);

    /// Creates the tables of the container, without rows. Fails where they
    /// exist.
    fn create(&mut self) -> (r: Result<(), Self::Error>)
        ensures
            old(self).tables() matches Some(held) ==> match held {
                None => r is Ok && final(self).tables() == Some(Some(TablesView::empty())),
                Some(_) => r is Err && final(self).tables() == old(self).tables(),
            },
    ;

    /// Destroys the tables of the container, with their rows. Fails where
    /// there are none.
    fn destroy(&mut self) -> (r: Result<(), Self::Error>)
        ensures
            old(self).tables() matches Some(held) ==> (r is Ok <==> held is Some)
                && final(self).tables() == Some(None::<TablesView>),
    ;

    /// Begins a transaction on the rows that the container holds. Fails
    /// where the container has no tables. The container is borrowed to the
    /// transaction for as long as it lives, so that there is no second one.
    fn begin_transaction<'a>(&'a mut self) -> (r: Result<Self::Transaction<'a>, Self::Error>)
        ensures
            old(self).tables() matches Some(held) ==> match held {
                None => r is Err,
                Some(rows) => r matches Ok(tx) && tx.rows() == Some(rows),
            },
    ;
}

/// The container of the kind `name` that `uri` names. The one kind is
/// `sqlite`: a database in the file `uri`, or in memory where `uri` is empty.
pub fn new(name: &str, uri: &str) -> (r: Result<
    sqlite::ContainerSqlite,
    sqlite::ContainerSqliteError,
>)
    requires
        name@ == "sqlite"@,
    ensures
        r matches Err(e) ==> e matches sqlite::ContainerSqliteError::CantOpenSqliteConnection {
            uri: tried,
            ..
        } && tried@ == uri@,
{
    sqlite::ContainerSqlite::new(uri)
}

} // verus!
