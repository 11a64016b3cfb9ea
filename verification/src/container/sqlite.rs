//! A container in an SQLite database.
//!
//! The four tables live in the database. Every statement is prepared and run
//! by the `rusqlite` crate; what comes back is turned into entities, and
//! checked against the data model, by the same functions as for every other
//! container.

pub mod driver;
pub mod values;

pub use driver::{SqlParam, SqlValue};
pub use values::{from_column, key_params, to_column};

use crate::container::rows::{
    latest_refs, latest_version, next_entity_id, next_version, resolve_ref, versions_of_id,
};
use crate::container::sqlite::driver::{
    sqlite_commit, sqlite_connection, sqlite_execute, sqlite_open, sqlite_open_in_memory,
    sqlite_prepare, sqlite_query, sqlite_rollback, sqlite_transaction,
};
use crate::container::sqlite::values::{
    attribute_runs, attributes_from_values, attributes_of_rows, decoded_links,
    endpoints_from_values, id_params, inserted_one_row, keys_from_values, link_runs,
    payload_from_values, record_params, removed_a_row, rows_or_error, tag_runs,
    tags_from_values, tags_of_rows,
};
use crate::container::tables::TablesView;
use crate::container::{Container, ContainerTransaction, DataError, DataErrorView};
use crate::entity::{
    EntityId, EntityIdVer, Link, Record, SearchResult, TagsAndAttributes, ENTITY_VER_LATEST,
};
use crate::search::{
    answers, found_links, found_records, lemma_attribute_results, lemma_found_entities_distinct,
    lemma_found_links, lemma_found_records, lemma_tag_results, links_view, records_view,
    search_attributes, search_entities, search_tags,
};
use crate::entity::keys_of;
use crate::search_query::{SearchQuery, SearchQueryView};
use vstd::prelude::*;

verus! {

/// Why an operation on an SQLite container failed.
#[derive(Debug)]
pub enum ContainerSqliteError {
    /// The connection cannot be opened.
    CantOpenSqliteConnection { uri: String, err: rusqlite::Error },
    /// A table cannot be created or dropped.
    FailedToCreateTable { sql: String },
    /// A statement cannot be prepared.
    SqliteConnPrepareFailed { sql: String, err: rusqlite::Error },
    /// A query cannot be run.
    SqliteQueryMapFailed { err: rusqlite::Error },
    /// A row of a query cannot be read.
    ErrorRetrievingRecordData { err: rusqlite::Error },
    /// A row of a query has not the columns that the query asks for.
    UnexpectedRow { sql: String },
    /// A statement cannot be run.
    ErrorExecutingStatement { sql: String, err: rusqlite::Error },
    /// An insert of one row changed another number of rows.
    FailedToInsert1Entry { sql: String, nr_inserted: usize },
    /// More than one payload row for one version of a record.
    TooManyRowsForARecord { eid: EntityIdVer },
    /// The same tag twice on one version of an entity.
    DuplicateTagsInContainer { eid: EntityIdVer, tag: String },
    /// The same attribute key twice on one version of an entity.
    DuplicateAttributesInContainer { eid: EntityIdVer, key: String, value: String },
    /// There is no identifier left for a new entity.
    IdsExhausted,
    /// There is no version left for a new version of this entity.
    VersionsExhausted { id: EntityId },
    /// The transaction cannot be begun.
    BeginTransactionFailed { err: rusqlite::Error },
    /// The transaction cannot be committed.
    CommitTransactionFailed { err: rusqlite::Error },
    /// The transaction cannot be rolled back.
    RollbackTransactionFailed { err: rusqlite::Error },
}

impl ContainerSqliteError {
    /// The error in the data that this error stands for, if it stands for
    /// one.
    pub open spec fn as_data_error(self) -> Option<DataErrorView> {
        match self {
            ContainerSqliteError::TooManyRowsForARecord { eid } => Some(
                DataErrorView::TooManyRows { eid },
            ),
            ContainerSqliteError::DuplicateTagsInContainer { eid, tag } => Some(
                DataErrorView::DuplicateTag { eid, tag: tag@ },
            ),
            ContainerSqliteError::DuplicateAttributesInContainer { eid, key, value } => Some(
                DataErrorView::DuplicateAttribute { eid, key: key@, value: value@ },
            ),
            ContainerSqliteError::IdsExhausted => Some(DataErrorView::IdsExhausted),
            ContainerSqliteError::VersionsExhausted { id } => Some(
                DataErrorView::VersionsExhausted { id },
            ),
            _ => None,
        }
    }

    /// The error says what `e` says.
    pub open spec fn says(self, e: DataErrorView) -> bool {
        self.as_data_error() == Some(e)
    }

    /// The statement `sql` could not be prepared.
    pub open spec fn is_prepare_error_of(self, sql: Seq<char>) -> bool {
        match self {
            ContainerSqliteError::SqliteConnPrepareFailed { sql: tried, .. } => tried@ == sql,
            _ => false,
        }
    }

    /// The query `sql` could not be prepared or run, or one of its rows
    /// could not be read.
    pub open spec fn is_query_error_of(self, sql: Seq<char>) -> bool {
        ||| self.is_prepare_error_of(sql)
        ||| self is SqliteQueryMapFailed
        ||| self is ErrorRetrievingRecordData
    }

    /// The query `sql` could not be prepared or run, or one of its rows
    /// could not be read or has not the columns that the query asks for.
    pub open spec fn is_read_error_of(self, sql: Seq<char>) -> bool {
        self.is_query_error_of(sql) || match self {
            ContainerSqliteError::UnexpectedRow { sql: tried } => tried@ == sql,
            _ => false,
        }
    }

    /// The statement `sql` could not be prepared or run.
    pub open spec fn is_run_error_of(self, sql: Seq<char>) -> bool {
        self.is_prepare_error_of(sql) || match self {
            ContainerSqliteError::ErrorExecutingStatement { sql: tried, .. } => tried@ == sql,
            _ => false,
        }
    }

    /// The statement `sql` could not be prepared or run, or a run of it
    /// changed another number of rows than one.
    pub open spec fn is_insert_error_of(self, sql: Seq<char>) -> bool {
        self.is_run_error_of(sql) || match self {
            ContainerSqliteError::FailedToInsert1Entry { sql: tried, nr_inserted } => tried@ == sql
                && nr_inserted != 1,
            _ => false,
        }
    }

    /// The tags of `eid` could not be read: the query for them failed, or
    /// one of them is stored twice.
    pub open spec fn is_tags_error_of(self, eid: EntityIdVer) -> bool {
        self.is_read_error_of(SQL_TAGS_GET@) || match self {
            ContainerSqliteError::DuplicateTagsInContainer { eid: at, .. } => at == eid,
            _ => false,
        }
    }

    /// The attributes of `eid` could not be read: the query for them failed,
    /// or one of their keys is stored twice.
    pub open spec fn is_attributes_error_of(self, eid: EntityIdVer) -> bool {
        self.is_read_error_of(SQL_ATTRIBUTES_GET@) || match self {
            ContainerSqliteError::DuplicateAttributesInContainer { eid: at, .. } => at == eid,
            _ => false,
        }
    }

    /// The version `at` of a record could not be read: the query for its
    /// payload failed, it has more than one payload row, or its tags or its
    /// attributes could not be read.
    pub open spec fn is_record_error_of(self, at: EntityIdVer) -> bool {
        ||| self.is_read_error_of(SQL_RECORD_GET@)
        ||| self == (ContainerSqliteError::TooManyRowsForARecord { eid: at })
        ||| self.is_tags_error_of(at)
        ||| self.is_attributes_error_of(at)
    }

    /// The version `at` of a link could not be read: the query for its
    /// endpoints failed, or its tags or its attributes could not be read.
    pub open spec fn is_link_error_of(self, at: EntityIdVer) -> bool {
        ||| self.is_read_error_of(SQL_LINK_GET@)
        ||| self.is_tags_error_of(at)
        ||| self.is_attributes_error_of(at)
    }

    /// No identifier could be found for a new entity: the references of the
    /// records or of the links could not be read, or the highest identifier
    /// is in use.
    pub open spec fn is_next_id_error(self) -> bool {
        ||| self.is_read_error_of(SQL_RECORD_ALL@)
        ||| self.is_read_error_of(SQL_LINK_ALL@)
        ||| self is IdsExhausted
    }

    /// No reference could be assigned to a put for `given`: the versions
    /// could not be read by the query `versions_sql`, the highest version of
    /// the entity is in use, or, where no identifier is given, none could be
    /// found for a new entity.
    pub open spec fn is_assign_error_of(self, given: Option<EntityId>, versions_sql: Seq<char>) -> bool {
        ||| self.is_read_error_of(versions_sql)
        ||| match self {
            ContainerSqliteError::VersionsExhausted { id } => match given {
                Some(put) => id == put,
                None => true,
            },
            _ => false,
        }
        ||| (given is None && self.is_next_id_error())
    }

    /// Tags or attributes could not be added.
    pub open spec fn is_tags_and_attributes_put_error(self) -> bool {
        self.is_run_error_of(SQL_TAGS_PUT@) || self.is_run_error_of(SQL_ATTRIBUTES_PUT@)
    }

    /// Tags or attributes could not be deleted.
    pub open spec fn is_tags_and_attributes_del_error(self) -> bool {
        self.is_run_error_of(SQL_TAGS_DEL@) || self.is_run_error_of(SQL_ATTRIBUTES_DEL@)
    }

    /// A table could not be created or dropped by one of the statements.
    pub open spec fn is_table_error_in(self, statements: Seq<Seq<char>>) -> bool {
        match self {
            ContainerSqliteError::FailedToCreateTable { sql } => statements.contains(sql@),
            _ => false,
        }
    }

    /// The error of the container for an error in its data.
    pub fn from_data_error(e: DataError) -> (r: ContainerSqliteError)
        ensures
            r.says(e@),
    {
        match e {
            DataError::TooManyRows { eid } => ContainerSqliteError::TooManyRowsForARecord { eid },
            DataError::DuplicateTag { eid, tag } => ContainerSqliteError::DuplicateTagsInContainer {
                eid,
                tag,
            },
            DataError::DuplicateAttribute {
                eid,
                key,
                value,
            } => ContainerSqliteError::DuplicateAttributesInContainer { eid, key, value },
            DataError::IdsExhausted => ContainerSqliteError::IdsExhausted,
            DataError::VersionsExhausted { id } => ContainerSqliteError::VersionsExhausted { id },
        }
    }
}

pub const SQL_CREATE_RECORDS: &'static str =
    "CREATE TABLE records(id_lo INTEGER, id_hi INTEGER, version INTEGER, payload BLOB) STRICT;";

pub const SQL_CREATE_TAGS: &'static str =
    "CREATE TABLE tags(id_lo INTEGER, id_hi INTEGER, version INTEGER, tag TEXT) STRICT;";

pub const SQL_CREATE_ATTRIBUTES: &'static str =
    "CREATE TABLE attributes(id_lo INTEGER, id_hi INTEGER, version INTEGER, key TEXT, value TEXT) STRICT;";

pub const SQL_CREATE_LINKS: &'static str =
    "CREATE TABLE links(id_lo INTEGER, id_hi INTEGER, version INTEGER, direction INTEGER, ref_id_lo INTEGER, ref_id_hi INTEGER, ref_version INTEGER) STRICT;";

pub const SQL_DROP_LINKS: &'static str = "DROP TABLE links;";

pub const SQL_DROP_ATTRIBUTES: &'static str = "DROP TABLE attributes;";

pub const SQL_DROP_TAGS: &'static str = "DROP TABLE tags;";

pub const SQL_DROP_RECORDS: &'static str = "DROP TABLE records;";

pub const SQL_TAGS_GET: &'static str =
    "SELECT tag FROM tags WHERE id_lo = ? AND id_hi = ? AND version = ? ORDER BY rowid;";

pub const SQL_TAGS_PUT: &'static str = "INSERT INTO tags(id_lo, id_hi, version, tag) VALUES(?, ?, ?, ?);";

pub const SQL_TAGS_DEL: &'static str = "DELETE FROM tags WHERE id_lo = ? AND id_hi = ? AND version = ?;";

pub const SQL_TAGS_ALL: &'static str = "SELECT tag FROM tags ORDER BY rowid;";

pub const SQL_ATTRIBUTES_GET: &'static str =
    "SELECT key, value FROM attributes WHERE id_lo = ? AND id_hi = ? AND version = ? ORDER BY rowid;";

pub const SQL_ATTRIBUTES_PUT: &'static str =
    "INSERT INTO attributes(id_lo, id_hi, version, key, value) VALUES(?, ?, ?, ?, ?);";

pub const SQL_ATTRIBUTES_DEL: &'static str =
    "DELETE FROM attributes WHERE id_lo = ? AND id_hi = ? AND version = ?;";

pub const SQL_ATTRIBUTES_ALL: &'static str = "SELECT key, value FROM attributes ORDER BY rowid;";

pub const SQL_RECORD_GET: &'static str =
    "SELECT payload FROM records WHERE id_lo = ? AND id_hi = ? AND version = ? ORDER BY rowid;";

pub const SQL_RECORD_PUT: &'static str =
    "INSERT INTO records(id_lo, id_hi, version, payload) VALUES(?, ?, ?, ?);";

pub const SQL_RECORD_DEL: &'static str =
    "DELETE FROM records WHERE id_lo = ? AND id_hi = ? AND version = ?;";

pub const SQL_RECORD_ALL: &'static str = "SELECT id_lo, id_hi, version FROM records ORDER BY rowid;";

pub const SQL_RECORD_VERSIONS: &'static str =
    "SELECT id_lo, id_hi, version FROM records WHERE id_lo = ? AND id_hi = ? ORDER BY rowid;";

pub const SQL_LINK_GET: &'static str =
    "SELECT direction, ref_id_lo, ref_id_hi, ref_version FROM links WHERE id_lo = ? AND id_hi = ? AND version = ? ORDER BY rowid;";

pub const SQL_LINK_PUT: &'static str =
    "INSERT INTO links(id_lo, id_hi, version, direction, ref_id_lo, ref_id_hi, ref_version) VALUES(?, ?, ?, ?, ?, ?, ?);";

pub const SQL_LINK_DEL: &'static str = "DELETE FROM links WHERE id_lo = ? AND id_hi = ? AND version = ?;";

pub const SQL_LINK_ALL: &'static str = "SELECT id_lo, id_hi, version FROM links ORDER BY rowid;";

pub const SQL_LINK_VERSIONS: &'static str =
    "SELECT id_lo, id_hi, version FROM links WHERE id_lo = ? AND id_hi = ? ORDER BY rowid;";

/// A container in an SQLite database. It owns the connection to it.
pub struct ContainerSqlite {
    conn: rusqlite::Connection,
}

/// A unit of work on a [`ContainerSqlite`]. While it lives, the connection
/// of the container is borrowed to it, so there is no second one.
pub struct ContainerSqliteTransaction<'a> {
    tx: rusqlite::Transaction<'a>,
}

impl ContainerSqlite {
    /// Runs the statements, which create or drop tables, one after the
    /// other, and stops at the first that fails.
    fn statements_execute(&self, statements: &Vec<&'static str>) -> (r: Result<
        (),
        ContainerSqliteError,
    >)
        ensures
            statements@.len() == 0 ==> r is Ok,
            r matches Err(e) ==> e.is_table_error_in(
                Seq::new(statements@.len(), |i: int| statements@[i]@),
            ),
    {
        let none: Vec<SqlParam> = Vec::new();
        let n: usize = statements.len();
        let mut i: usize = 0;
        while i < n
            invariant
                n == statements.len(),
                i <= n,
            decreases n - i,
        {
            let sql: &str = statements[i];
            let done = match sqlite_prepare(&self.conn, sql) {
                Err(_) => false,
                Ok(mut stmt) => sqlite_execute(&mut stmt, &none).is_ok(),
            };
            if !done {
                assert(Seq::new(statements@.len(), |k: int| statements@[k]@)[i as int] == sql@);
                return Err(ContainerSqliteError::FailedToCreateTable { sql: sql.to_owned() });
            }
            i += 1;
        }
        Ok(())
    }

}

impl<'a> ContainerSqliteTransaction<'a> {
    /// The rows that the query gives.
    fn query(&self, sql: &str, params: &Vec<SqlParam>, columns: usize) -> (r: Result<
        Vec<Vec<SqlValue>>,
        ContainerSqliteError,
    >)
        ensures
            r matches Ok(rows) ==> forall|i: int|
                0 <= i < rows@.len() ==> (#[trigger] rows@[i])@.len() == columns,
            r matches Err(e) ==> e.is_query_error_of(sql@),
    {
        let mut stmt = match sqlite_prepare(sqlite_connection(&self.tx), sql) {
            Ok(stmt) => stmt,
            Err(err) => {
                return Err(
                    ContainerSqliteError::SqliteConnPrepareFailed { sql: sql.to_owned(), err },
                );
            },
        };
        let rows = match sqlite_query(&mut stmt, params, columns) {
            Ok(rows) => rows,
            Err(err) => {
                return Err(ContainerSqliteError::SqliteQueryMapFailed { err });
            },
        };
        let ghost read = rows@;
        match rows_or_error(rows) {
            Ok(values) => {
                assert forall|i: int| 0 <= i < values@.len() implies (#[trigger] values@[i])@.len()
                    == columns by {
                    assert(read[i] == Ok::<Vec<SqlValue>, rusqlite::Error>(values@[i]));
                }
                Ok(values)
            },
            Err(e) => Err(e),
        }
    }

    /// Runs the statement once for each list of parameters, and gives the
    /// number of rows that it changed in all. Where `one_each` holds, fails
    /// unless each run changes one row.
    fn execute(&self, sql: &str, runs: &Vec<Vec<SqlParam>>, one_each: bool) -> (r: Result<
        usize,
        ContainerSqliteError,
    >)
        ensures
            r matches Err(e) ==> e.is_insert_error_of(sql@) && (e is FailedToInsert1Entry
                ==> one_each),
            r matches Ok(changed) ==> (one_each ==> changed == runs@.len()) && (runs@.len() == 0
                ==> changed == 0),
    {
        let mut stmt = match sqlite_prepare(sqlite_connection(&self.tx), sql) {
            Ok(stmt) => stmt,
            Err(err) => {
                return Err(
                    ContainerSqliteError::SqliteConnPrepareFailed { sql: sql.to_owned(), err },
                );
            },
        };
        let mut changed: usize = 0;
        let n: usize = runs.len();
        let mut i: usize = 0;
        while i < n
            invariant
                n == runs.len(),
                i <= n,
                one_each ==> changed == i,
                i == 0 ==> changed == 0,
            decreases n - i,
        {
            match sqlite_execute(&mut stmt, &runs[i]) {
                Err(err) => {
                    return Err(
                        ContainerSqliteError::ErrorExecutingStatement { sql: sql.to_owned(), err },
                    );
                },
                Ok(count) => {
                    if one_each {
                        match inserted_one_row(sql, count) {
                            Ok(()) => {},
                            Err(e) => {
                                return Err(e);
                            },
                        }
                    }
                    changed = changed.saturating_add(count);
                },
            }
            i += 1;
        }
        Ok(changed)
    }

    /// Runs the statement once, with the three columns of `eid` as its
    /// parameters.
    fn execute_for(&self, sql: &str, eid: &EntityIdVer) -> (r: Result<usize, ContainerSqliteError>)
        ensures
            r matches Err(e) ==> e.is_run_error_of(sql@),
    {
        let mut runs: Vec<Vec<SqlParam>> = Vec::new();
        runs.push(key_params(eid));
        self.execute(sql, &runs, false)
    }

    /// The references in the rows that the query gives.
    fn query_keys(&self, sql: &str, params: &Vec<SqlParam>) -> (r: Result<
        Vec<EntityIdVer>,
        ContainerSqliteError,
    >)
        ensures
            r matches Err(e) ==> e.is_read_error_of(sql@),
    {
        let rows = match self.query(sql, params, 3) {
            Ok(rows) => rows,
            Err(e) => {
                return Err(e);
            },
        };
        keys_from_values(sql, &rows)
    }

    /// The latest version of the entity `id` among the rows that the query
    /// for its versions gives.
    fn latest_version_by(&self, sql: &str, id: &EntityId) -> (r: Result<
        Option<u64>,
        ContainerSqliteError,
    >)
        ensures
            r matches Err(e) ==> e.is_read_error_of(sql@),
    {
        let params = id_params(id);
        let refs = match self.query_keys(sql, &params) {
            Ok(refs) => refs,
            Err(e) => {
                return Err(e);
            },
        };
        let versions = versions_of_id(&refs, id);
        Ok(latest_version(&versions))
    }

    /// The stored version `at` of a record, or nothing where it is not
    /// stored.
    fn record_at(&self, at: &EntityIdVer) -> (r: Result<Option<Record>, ContainerSqliteError>)
        ensures
            match r {
                Ok(Some(record)) => record@.wf(),
                Ok(None) => true,
                Err(e) => e.is_record_error_of(*at),
            },
    {
        let rows = match self.query(SQL_RECORD_GET, &key_params(at), 1) {
            Ok(rows) => rows,
            Err(e) => {
                return Err(e);
            },
        };
        let data = match payload_from_values(at, SQL_RECORD_GET, rows) {
            Err(e) => {
                return Err(e);
            },
            Ok(None) => {
                return Ok(None);
            },
            Ok(Some(data)) => data,
        };
        match self.tags_and_attributes_get(at) {
            Err(e) => Err(e),
            Ok(ta) => Ok(Some(Record { ta, data })),
        }
    }

    /// The stored version `at` of a link, or nothing where it is not stored.
    fn link_at(&self, at: &EntityIdVer) -> (r: Result<Option<Link>, ContainerSqliteError>)
        ensures
            match r {
                Ok(Some(link)) => link@.wf() && link@.from.len() + link@.to.len() > 0,
                Ok(None) => true,
                Err(e) => e.is_link_error_of(*at),
            },
    {
        let rows = match self.query(SQL_LINK_GET, &key_params(at), 4) {
            Ok(rows) => rows,
            Err(e) => {
                return Err(e);
            },
        };
        if rows.len() == 0 {
            return Ok(None);
        }
        let (from, to) = match endpoints_from_values(SQL_LINK_GET, &rows) {
            Err(e) => {
                return Err(e);
            },
            Ok(sides) => sides,
        };
        proof {
            let links = decoded_links(rows.deep_view()).unwrap();
            crate::container::rows::lemma_endpoints_count(links);
        }
        match self.tags_and_attributes_get(at) {
            Err(e) => Err(e),
            Ok(ta) => Ok(Some(Link { ta, from, to })),
        }
    }

    /// The identifier for a new entity: one more than the highest
    /// identifier of all records and links, or the start value.
    fn eid_next(&self) -> (r: Result<EntityId, ContainerSqliteError>)
        ensures
            r matches Err(e) ==> e.is_next_id_error(),
    {
        let records = match self.record_get_all_ids() {
            Ok(ids) => ids,
            Err(e) => {
                return Err(e);
            },
        };
        let links = match self.link_get_all_ids() {
            Ok(ids) => ids,
            Err(e) => {
                return Err(e);
            },
        };
        match next_entity_id(&records, &links) {
            Some(id) => Ok(id),
            None => Err(ContainerSqliteError::IdsExhausted),
        }
    }

    /// The reference for the next version of the entity `eid`, or of a new
    /// entity where no identifier is given.
    fn assign_ref(&self, eid: &Option<EntityId>, versions_sql: &str) -> (r: Result<
        EntityIdVer,
        ContainerSqliteError,
    >)
        ensures
            match r {
                Ok(at) => at.ver != ENTITY_VER_LATEST && (*eid matches Some(id) ==> at.id == id),
                Err(e) => e.is_assign_error_of(*eid, versions_sql@),
            },
    {
        let id = match eid {
            Some(id) => *id,
            None => match self.eid_next() {
                Ok(id) => id,
                Err(e) => {
                    return Err(e);
                },
            },
        };
        let latest = match self.latest_version_by(versions_sql, &id) {
            Ok(latest) => latest,
            Err(e) => {
                return Err(e);
            },
        };
        match next_version(latest) {
            None => Err(ContainerSqliteError::VersionsExhausted { id }),
            Some(ver) => Ok(EntityIdVer::new(id, ver)),
        }
    }

    /// Every tag of the container, of every version of every entity.
    fn tags_all(&self) -> (r: Result<Vec<String>, ContainerSqliteError>)
        ensures
            r matches Err(e) ==> e.is_read_error_of(SQL_TAGS_ALL@),
    {
        let none: Vec<SqlParam> = Vec::new();
        let rows = match self.query(SQL_TAGS_ALL, &none, 1) {
            Ok(rows) => rows,
            Err(e) => {
                return Err(e);
            },
        };
        match tags_of_rows(rows) {
            Some(tags) => Ok(tags),
            None => Err(ContainerSqliteError::UnexpectedRow { sql: SQL_TAGS_ALL.to_owned() }),
        }
    }

    /// Every attribute of the container, of every version of every entity.
    fn attributes_all(&self) -> (r: Result<Vec<(String, String)>, ContainerSqliteError>)
        ensures
            r matches Err(e) ==> e.is_read_error_of(SQL_ATTRIBUTES_ALL@),
    {
        let none: Vec<SqlParam> = Vec::new();
        let rows = match self.query(SQL_ATTRIBUTES_ALL, &none, 2) {
            Ok(rows) => rows,
            Err(e) => {
                return Err(e);
            },
        };
        match attributes_of_rows(rows) {
            Some(attributes) => Ok(attributes),
            None => Err(
                ContainerSqliteError::UnexpectedRow { sql: SQL_ATTRIBUTES_ALL.to_owned() },
            ),
        }
    }

    /// The latest version of every record, with its reference.
    fn latest_records(&self) -> (r: Result<Vec<(EntityIdVer, Record)>, ContainerSqliteError>)
        ensures
            match r {
                Ok(list) => {
                    &&& forall|i: int, j: int|
                        0 <= i < j < list.len() ==> (#[trigger] list@[i]).0 != (
                        #[trigger] list@[j]).0
                    &&& forall|i: int| 0 <= i < list.len() ==> (#[trigger] list@[i]).1@.wf()
                },
                Err(e) => e.is_read_error_of(SQL_RECORD_ALL@) || exists|at: EntityIdVer| #[trigger]
                    e.is_record_error_of(at),
            },
    {
        let ids = match self.record_get_all_ids() {
            Ok(ids) => ids,
            Err(e) => {
                return Err(e);
            },
        };
        let mut list: Vec<(EntityIdVer, Record)> = Vec::new();
        let ghost mut source: Seq<int> = Seq::empty();
        let n: usize = ids.len();
        let mut i: usize = 0;
        while i < n
            invariant
                n == ids.len(),
                i <= n,
                forall|a: int, b: int|
                    0 <= a < b < ids.len() ==> (#[trigger] ids@[a]).id != (#[trigger] ids@[b]).id,
                source.len() == list.len(),
                forall|k: int| 0 <= k < source.len() ==> 0 <= #[trigger] source[k] < i,
                forall|k: int, m: int|
                    0 <= k < m < source.len() ==> #[trigger] source[k] < #[trigger] source[m],
                forall|k: int|
                    0 <= k < list.len() ==> (#[trigger] list@[k]).0 == ids@[source[k]]
                        && list@[k].1@.wf(),
            decreases n - i,
        {
            match self.record_at(&ids[i]) {
                Err(e) => {
                    return Err(e);
                },
                Ok(None) => {},
                Ok(Some(record)) => {
                    list.push((ids[i], record));
                    proof {
                        source = source.push(i as int);
                    }
                },
            }
            i += 1;
        }
        proof {
            assert forall|k: int, m: int| 0 <= k < m < list.len() implies (#[trigger] list@[k]).0
                != (#[trigger] list@[m]).0 by {
                assert(ids@[source[k]].id != ids@[source[m]].id);
            }
        }
        Ok(list)
    }

    /// The latest version of every link, with its reference.
    fn latest_links(&self) -> (r: Result<Vec<(EntityIdVer, Link)>, ContainerSqliteError>)
        ensures
            match r {
                Ok(list) => {
                    &&& forall|i: int, j: int|
                        0 <= i < j < list.len() ==> (#[trigger] list@[i]).0 != (
                        #[trigger] list@[j]).0
                    &&& forall|i: int| 0 <= i < list.len() ==> (#[trigger] list@[i]).1@.wf()
                },
                Err(e) => e.is_read_error_of(SQL_LINK_ALL@) || exists|at: EntityIdVer| #[trigger]
                    e.is_link_error_of(at),
            },
    {
        let ids = match self.link_get_all_ids() {
            Ok(ids) => ids,
            Err(e) => {
                return Err(e);
            },
        };
        let mut list: Vec<(EntityIdVer, Link)> = Vec::new();
        let ghost mut source: Seq<int> = Seq::empty();
        let n: usize = ids.len();
        let mut i: usize = 0;
        while i < n
            invariant
                n == ids.len(),
                i <= n,
                forall|a: int, b: int|
                    0 <= a < b < ids.len() ==> (#[trigger] ids@[a]).id != (#[trigger] ids@[b]).id,
                source.len() == list.len(),
                forall|k: int| 0 <= k < source.len() ==> 0 <= #[trigger] source[k] < i,
                forall|k: int, m: int|
                    0 <= k < m < source.len() ==> #[trigger] source[k] < #[trigger] source[m],
                forall|k: int|
                    0 <= k < list.len() ==> (#[trigger] list@[k]).0 == ids@[source[k]]
                        && list@[k].1@.wf(),
            decreases n - i,
        {
            match self.link_at(&ids[i]) {
                Err(e) => {
                    return Err(e);
                },
                Ok(None) => {},
                Ok(Some(link)) => {
                    list.push((ids[i], link));
                    proof {
                        source = source.push(i as int);
                    }
                },
            }
            i += 1;
        }
        proof {
            assert forall|k: int, m: int| 0 <= k < m < list.len() implies (#[trigger] list@[k]).0
                != (#[trigger] list@[m]).0 by {
                assert(ids@[source[k]].id != ids@[source[m]].id);
            }
        }
        Ok(list)
    }

}

impl<'a> ContainerTransaction for ContainerSqliteTransaction<'a> {
    type Error = ContainerSqliteError;

    /// The rows are in the database: the container cannot tell them.
    open spec fn rows(&self) -> Option<TablesView> {
        None
    }

    open spec fn data_error(e: ContainerSqliteError) -> Option<DataErrorView> {
        e.as_data_error()
    }

    /// Commits the transaction.
    fn commit(self) -> (r: Result<(), ContainerSqliteError>)
        ensures
            r matches Err(e) ==> e is CommitTransactionFailed,
    {
        match sqlite_commit(self.tx) {
            Ok(()) => Ok(()),
            Err(err) => Err(ContainerSqliteError::CommitTransactionFailed { err }),
        }
    }

    /// Rolls the transaction back.
    fn rollback(self) -> (r: Result<(), ContainerSqliteError>)
        ensures
            r matches Err(e) ==> e is RollbackTransactionFailed,
    {
        match sqlite_rollback(self.tx) {
            Ok(()) => Ok(()),
            Err(err) => Err(ContainerSqliteError::RollbackTransactionFailed { err }),
        }
    }

    /// Searches the container.
    ///
    /// A search for tags gives every distinct tag of the container that has
    /// one of the substrings of the query, or every distinct tag where the
    /// query has none. A search for attributes does the same with the
    /// distinct pairs of a key and a value. A search for records and links
    /// gives the latest version of every record and of every link that the
    /// query finds, the records first; with an empty query it gives nothing.
    fn search(&self, query: &SearchQuery) -> (r: Result<
        Vec<SearchResult>,
        ContainerSqliteError,
    >)
        ensures
            r matches Ok(found) ==> answers(query@, found.deep_view()),
            match query@ {
                SearchQueryView::Tags(_) => r matches Err(e) ==> e.is_read_error_of(SQL_TAGS_ALL@),
                SearchQueryView::Attributes(_) => r matches Err(e) ==> e.is_read_error_of(
                    SQL_ATTRIBUTES_ALL@,
                ),
                SearchQueryView::RecordsAndLinks(q) => if q.is_empty() {
                    r is Ok
                } else {
                    r matches Err(e) ==> {
                        ||| e.is_read_error_of(SQL_RECORD_ALL@)
                        ||| e.is_read_error_of(SQL_LINK_ALL@)
                        ||| exists|at: EntityIdVer| #[trigger] e.is_record_error_of(at)
                        ||| exists|at: EntityIdVer| #[trigger] e.is_link_error_of(at)
                    }
                },
            },
    {
        match query {
            SearchQuery::Tags(q) => {
                let tags = match self.tags_all() {
                    Ok(tags) => tags,
                    Err(e) => {
                        return Err(e);
                    },
                };
                let found = search_tags(q, &tags);
                proof {
                    lemma_tag_results(q@, tags.deep_view());
                }
                Ok(found)
            },
            SearchQuery::Attributes(q) => {
                let attributes = match self.attributes_all() {
                    Ok(attributes) => attributes,
                    Err(e) => {
                        return Err(e);
                    },
                };
                let found = search_attributes(q, &attributes);
                proof {
                    lemma_attribute_results(q@, attributes.deep_view());
                }
                Ok(found)
            },
            SearchQuery::RecordsAndLinks(q) => {
                if q.is_empty() {
                    let found: Vec<SearchResult> = Vec::new();
                    return Ok(found);
                }
                let records = match self.latest_records() {
                    Ok(records) => records,
                    Err(e) => {
                        return Err(e);
                    },
                };
                let links = match self.latest_links() {
                    Ok(links) => links,
                    Err(e) => {
                        return Err(e);
                    },
                };
                let found = search_entities(q, &records, &links);
                proof {
                    let all_records = records_view(records@);
                    let all_links = links_view(links@);
                    assert forall|i: int, j: int| 0 <= i < j < all_records.len() implies (
                    #[trigger] all_records[i]).0 != (#[trigger] all_records[j]).0 by {
                        assert(records@[i].0 != records@[j].0);
                    }
                    assert forall|i: int, j: int| 0 <= i < j < all_links.len() implies (
                    #[trigger] all_links[i]).0 != (#[trigger] all_links[j]).0 by {
                        assert(links@[i].0 != links@[j].0);
                    }
                    lemma_found_entities_distinct(q@, all_records, all_links);
                    let of_records = found_records(q@, all_records);
                    let all = found.deep_view();
                    assert forall|i: int| 0 <= i < all.len() implies (#[trigger] all[i]) is Record
                        || all[i] is Link by {
                        lemma_found_records(q@, all_records, all[i]);
                        lemma_found_links(q@, all_links, all[i]);
                        if i < of_records.len() {
                            assert(of_records[i] == all[i]);
                            assert(of_records.contains(all[i]));
                        } else {
                            assert(found_links(q@, all_links)[i - of_records.len()] == all[i]);
                            assert(found_links(q@, all_links).contains(all[i]));
                        }
                    }
                }
                Ok(found)
            },
        }
    }

    /// The tags of `eid`. Fails where a tag is stored twice.
    fn tags_get(&self, eid: &EntityIdVer) -> (r: Result<Vec<String>, ContainerSqliteError>)
        ensures
            match r {
                Ok(tags) => tags.deep_view().no_duplicates(),
                Err(e) => e.is_tags_error_of(*eid),
            },
    {
        let rows = match self.query(SQL_TAGS_GET, &key_params(eid), 1) {
            Ok(rows) => rows,
            Err(e) => {
                return Err(e);
            },
        };
        tags_from_values(eid, SQL_TAGS_GET, rows)
    }

    /// Adds the tags to those of `eid`.
    fn tags_put(&mut self, eid: &EntityIdVer, tags: &[String]) -> (r: Result<
        (),
        ContainerSqliteError,
    >)
        ensures
            r matches Err(e) ==> e.is_run_error_of(SQL_TAGS_PUT@),
    {
        let runs = tag_runs(eid, tags);
        match self.execute(SQL_TAGS_PUT, &runs, false) {
            Ok(_) => Ok(()),
            Err(e) => Err(e),
        }
    }

    /// Deletes the tags of `eid`.
    fn tags_del(&mut self, eid: &EntityIdVer) -> (r: Result<(), ContainerSqliteError>)
        ensures
            r matches Err(e) ==> e.is_run_error_of(SQL_TAGS_DEL@),
    {
        match self.execute_for(SQL_TAGS_DEL, eid) {
            Ok(_) => Ok(()),
            Err(e) => Err(e),
        }
    }

    /// The attributes of `eid`. Fails where a key is stored twice.
    fn attributes_get(&self, eid: &EntityIdVer) -> (r: Result<
        Vec<(String, String)>,
        ContainerSqliteError,
    >)
        ensures
            match r {
                Ok(attributes) => keys_of(attributes.deep_view()).no_duplicates(),
                Err(e) => e.is_attributes_error_of(*eid),
            },
    {
        let rows = match self.query(SQL_ATTRIBUTES_GET, &key_params(eid), 2) {
            Ok(rows) => rows,
            Err(e) => {
                return Err(e);
            },
        };
        attributes_from_values(eid, SQL_ATTRIBUTES_GET, rows)
    }

    /// Adds the attributes to those of `eid`.
    fn attributes_put(&mut self, eid: &EntityIdVer, attributes: &[(String, String)]) -> (r:
        Result<(), ContainerSqliteError>)
        ensures
            r matches Err(e) ==> e.is_run_error_of(SQL_ATTRIBUTES_PUT@),
    {
        let runs = attribute_runs(eid, attributes);
        match self.execute(SQL_ATTRIBUTES_PUT, &runs, false) {
            Ok(_) => Ok(()),
            Err(e) => Err(e),
        }
    }

    /// Deletes the attributes of `eid`.
    fn attributes_del(&mut self, eid: &EntityIdVer) -> (r: Result<(), ContainerSqliteError>)
        ensures
            r matches Err(e) ==> e.is_run_error_of(SQL_ATTRIBUTES_DEL@),
    {
        match self.execute_for(SQL_ATTRIBUTES_DEL, eid) {
            Ok(_) => Ok(()),
            Err(e) => Err(e),
        }
    }

    /// The record that `eid` refers to, or nothing where it is not stored.
    /// A reference to the latest version is accepted. Fails where the record
    /// has more than one payload row, a tag twice or a key twice.
    fn record_get(&self, eid: &EntityIdVer) -> (r: Result<
        Option<Record>,
        ContainerSqliteError,
    >)
        ensures
            match r {
                Ok(Some(record)) => record@.wf(),
                Ok(None) => true,
                Err(e) => if eid.is_latest() {
                    e.is_read_error_of(SQL_RECORD_VERSIONS@) || exists|ver: u64| #[trigger]
                        e.is_record_error_of(EntityIdVer { id: eid.id, ver })
                } else {
                    e.is_record_error_of(*eid)
                },
            },
    {
        let latest = if eid.is_latest() {
            match self.record_get_ver_latest(&eid.id) {
                Ok(latest) => latest,
                Err(e) => {
                    return Err(e);
                },
            }
        } else {
            None
        };
        match resolve_ref(eid, latest) {
            None => Ok(None),
            Some(at) => match self.record_at(&at) {
                Ok(found) => Ok(found),
                Err(e) => {
                    proof {
                        assert(at == EntityIdVer { id: at.id, ver: at.ver });
                        assert(e.is_record_error_of(EntityIdVer { id: at.id, ver: at.ver }));
                    }
                    Err(e)
                },
            },
        }
    }

    /// Stores the record as the next version of the entity `eid`, or as the
    /// first version of a new entity where no identifier is given, and
    /// returns the reference of the version stored.
    fn record_put(&mut self, eid: &Option<EntityId>, record: &Record) -> (r: Result<
        EntityIdVer,
        ContainerSqliteError,
    >)
        ensures
            match r {
                Ok(at) => at.ver != ENTITY_VER_LATEST && (*eid matches Some(id) ==> at.id == id),
                Err(e) => {
                    ||| e.is_assign_error_of(*eid, SQL_RECORD_VERSIONS@)
                    ||| e.is_tags_and_attributes_put_error()
                    ||| e.is_insert_error_of(SQL_RECORD_PUT@)
                },
            },
    {
        let at = match self.assign_ref(eid, SQL_RECORD_VERSIONS) {
            Ok(at) => at,
            Err(e) => {
                return Err(e);
            },
        };
        match self.tags_and_attributes_put(&at, &record.ta) {
            Ok(()) => {},
            Err(e) => {
                return Err(e);
            },
        }
        let mut runs: Vec<Vec<SqlParam>> = Vec::new();
        runs.push(record_params(&at, &record.data));
        match self.execute(SQL_RECORD_PUT, &runs, true) {
            Ok(_) => Ok(at),
            Err(e) => Err(e),
        }
    }

    /// Deletes the version `eid` of a record with its tags and attributes,
    /// and says whether a payload row was there to delete.
    fn record_del(&mut self, eid: &EntityIdVer) -> (r: Result<bool, ContainerSqliteError>)
        ensures
            r matches Err(e) ==> e.is_tags_and_attributes_del_error() || e.is_run_error_of(
                SQL_RECORD_DEL@,
            ),
    {
        match self.tags_and_attributes_del(eid) {
            Ok(()) => {},
            Err(e) => {
                return Err(e);
            },
        }
        match self.execute_for(SQL_RECORD_DEL, eid) {
            Ok(count) => Ok(removed_a_row(count)),
            Err(e) => Err(e),
        }
    }

    /// The reference of the latest version of every record.
    fn record_get_all_ids(&self) -> (r: Result<Vec<EntityIdVer>, ContainerSqliteError>)
        ensures
            match r {
                Ok(ids) => forall|i: int, j: int|
                    0 <= i < j < ids.len() ==> (#[trigger] ids@[i]).id != (#[trigger] ids@[j]).id,
                Err(e) => e.is_read_error_of(SQL_RECORD_ALL@),
            },
    {
        let none: Vec<SqlParam> = Vec::new();
        match self.query_keys(SQL_RECORD_ALL, &none) {
            Ok(refs) => Ok(latest_refs(&refs)),
            Err(e) => Err(e),
        }
    }

    /// The latest version of the record `id`, if it has a version.
    fn record_get_ver_latest(&self, id: &EntityId) -> (r: Result<
        Option<u64>,
        ContainerSqliteError,
    >)
        ensures
            r matches Err(e) ==> e.is_read_error_of(SQL_RECORD_VERSIONS@),
    {
        self.latest_version_by(SQL_RECORD_VERSIONS, id)
    }

    /// The link that `eid` refers to, or nothing where it is not stored. A
    /// reference to the latest version is accepted. Fails where the link has
    /// a tag twice or a key twice.
    fn link_get(&self, eid: &EntityIdVer) -> (r: Result<Option<Link>, ContainerSqliteError>)
        ensures
            match r {
                Ok(Some(link)) => link@.wf() && link@.from.len() + link@.to.len() > 0,
                Ok(None) => true,
                Err(e) => if eid.is_latest() {
                    e.is_read_error_of(SQL_LINK_VERSIONS@) || exists|ver: u64| #[trigger]
                        e.is_link_error_of(EntityIdVer { id: eid.id, ver })
                } else {
                    e.is_link_error_of(*eid)
                },
            },
    {
        let latest = if eid.is_latest() {
            match self.link_get_ver_latest(&eid.id) {
                Ok(latest) => latest,
                Err(e) => {
                    return Err(e);
                },
            }
        } else {
            None
        };
        match resolve_ref(eid, latest) {
            None => Ok(None),
            Some(at) => match self.link_at(&at) {
                Ok(found) => Ok(found),
                Err(e) => {
                    proof {
                        assert(at == EntityIdVer { id: at.id, ver: at.ver });
                        assert(e.is_link_error_of(EntityIdVer { id: at.id, ver: at.ver }));
                    }
                    Err(e)
                },
            },
        }
    }

    /// Stores the link as the next version of the entity `eid`, or as the
    /// first version of a new entity where no identifier is given, and
    /// returns the reference of the version stored.
    fn link_put(&mut self, eid: &Option<EntityId>, link: &Link) -> (r: Result<
        EntityIdVer,
        ContainerSqliteError,
    >)
        ensures
            match r {
                Ok(at) => at.ver != ENTITY_VER_LATEST && (*eid matches Some(id) ==> at.id == id),
                Err(e) => {
                    ||| e.is_assign_error_of(*eid, SQL_LINK_VERSIONS@)
                    ||| e.is_tags_and_attributes_put_error()
                    ||| e.is_insert_error_of(SQL_LINK_PUT@)
                },
            },
    {
        let at = match self.assign_ref(eid, SQL_LINK_VERSIONS) {
            Ok(at) => at,
            Err(e) => {
                return Err(e);
            },
        };
        match self.tags_and_attributes_put(&at, &link.ta) {
            Ok(()) => {},
            Err(e) => {
                return Err(e);
            },
        }
        let runs = link_runs(&at, &link.from, &link.to);
        match self.execute(SQL_LINK_PUT, &runs, true) {
            Ok(_) => Ok(at),
            Err(e) => Err(e),
        }
    }

    /// Deletes the version `eid` of a link with its tags and attributes,
    /// and says whether an endpoint row was there to delete.
    fn link_del(&mut self, eid: &EntityIdVer) -> (r: Result<bool, ContainerSqliteError>)
        ensures
            r matches Err(e) ==> e.is_tags_and_attributes_del_error() || e.is_run_error_of(
                SQL_LINK_DEL@,
            ),
    {
        match self.tags_and_attributes_del(eid) {
            Ok(()) => {},
            Err(e) => {
                return Err(e);
            },
        }
        match self.execute_for(SQL_LINK_DEL, eid) {
            Ok(count) => Ok(removed_a_row(count)),
            Err(e) => Err(e),
        }
    }

    /// The reference of the latest version of every link.
    fn link_get_all_ids(&self) -> (r: Result<Vec<EntityIdVer>, ContainerSqliteError>)
        ensures
            match r {
                Ok(ids) => forall|i: int, j: int|
                    0 <= i < j < ids.len() ==> (#[trigger] ids@[i]).id != (#[trigger] ids@[j]).id,
                Err(e) => e.is_read_error_of(SQL_LINK_ALL@),
            },
    {
        let none: Vec<SqlParam> = Vec::new();
        match self.query_keys(SQL_LINK_ALL, &none) {
            Ok(refs) => Ok(latest_refs(&refs)),
            Err(e) => Err(e),
        }
    }

    /// The latest version of the link `id`, if it has a version.
    fn link_get_ver_latest(&self, id: &EntityId) -> (r: Result<
        Option<u64>,
        ContainerSqliteError,
    >)
        ensures
            r matches Err(e) ==> e.is_read_error_of(SQL_LINK_VERSIONS@),
    {
        self.latest_version_by(SQL_LINK_VERSIONS, id)
    }

    /// The tags and the attributes of `eid`.
    fn tags_and_attributes_get(&self, eid: &EntityIdVer) -> (r: Result<
        TagsAndAttributes,
        ContainerSqliteError,
    >)
        ensures
            match r {
                Ok(ta) => ta@.wf(),
                Err(e) => e.is_tags_error_of(*eid) || e.is_attributes_error_of(*eid),
            },
    {
        let tags = match self.tags_get(eid) {
            Ok(tags) => tags,
            Err(e) => {
                return Err(e);
            },
        };
        let attributes = match self.attributes_get(eid) {
            Ok(attributes) => attributes,
            Err(e) => {
                return Err(e);
            },
        };
        Ok(TagsAndAttributes { tags, attributes })
    }

    /// Adds the tags and the attributes of `ta` to those of `eid`.
    fn tags_and_attributes_put(&mut self, eid: &EntityIdVer, ta: &TagsAndAttributes) -> (r:
        Result<(), ContainerSqliteError>)
        ensures
            r matches Err(e) ==> e.is_tags_and_attributes_put_error(),
    {
        match self.tags_put(eid, ta.tags.as_slice()) {
            Ok(()) => self.attributes_put(eid, ta.attributes.as_slice()),
            Err(e) => Err(e),
        }
    }

    /// Deletes the tags and the attributes of `eid`.
    fn tags_and_attributes_del(&mut self, eid: &EntityIdVer) -> (r: Result<
        (),
        ContainerSqliteError,
    >)
        ensures
            r matches Err(e) ==> e.is_tags_and_attributes_del_error(),
    {
        match self.tags_del(eid) {
            Ok(()) => self.attributes_del(eid),
            Err(e) => Err(e),
        }
    }
}

impl Container for ContainerSqlite {
    type Error = ContainerSqliteError;

    type Transaction<'a> = ContainerSqliteTransaction<'a>;

    /// The tables are in the database: the container cannot tell them.
    open spec fn tables(&self) -> Option<Option<TablesView>> {
        None
    }

    /// Opens the database in the file `uri`, or a database in memory where
    /// `uri` is empty.
    fn new(uri: &str) -> (r: Result<ContainerSqlite, ContainerSqliteError>)
        ensures
            r matches Err(e) ==> e matches ContainerSqliteError::CantOpenSqliteConnection {
                uri: tried,
                ..
            } && tried@ == uri@,
    {
        let conn = if uri.is_empty() {
            sqlite_open_in_memory()
        } else {
            sqlite_open(uri)
        };
        match conn {
            Ok(conn) => Ok(ContainerSqlite { conn }),
            Err(err) => Err(
                ContainerSqliteError::CantOpenSqliteConnection { uri: uri.to_owned(), err },
            ),
        }
    }

    /// Creates the four tables. Fails where one of them exists.
    fn create(&mut self) -> (r: Result<(), ContainerSqliteError>)
        ensures
            r matches Err(e) ==> e.is_table_error_in(
                seq![
                    SQL_CREATE_RECORDS@,
                    SQL_CREATE_TAGS@,
                    SQL_CREATE_ATTRIBUTES@,
                    SQL_CREATE_LINKS@,
                ],
            ),
    {
        let mut statements: Vec<&'static str> = Vec::new();
        statements.push(SQL_CREATE_RECORDS);
        statements.push(SQL_CREATE_TAGS);
        statements.push(SQL_CREATE_ATTRIBUTES);
        statements.push(SQL_CREATE_LINKS);
        assert(Seq::new(statements@.len(), |i: int| statements@[i]@) =~= seq![
            SQL_CREATE_RECORDS@,
            SQL_CREATE_TAGS@,
            SQL_CREATE_ATTRIBUTES@,
            SQL_CREATE_LINKS@,
        ]);
        self.statements_execute(&statements)
    }

    /// Drops the four tables. Fails where one of them does not exist.
    fn destroy(&mut self) -> (r: Result<(), ContainerSqliteError>)
        ensures
            r matches Err(e) ==> e.is_table_error_in(
                seq![SQL_DROP_LINKS@, SQL_DROP_ATTRIBUTES@, SQL_DROP_TAGS@, SQL_DROP_RECORDS@],
            ),
    {
        let mut statements: Vec<&'static str> = Vec::new();
        statements.push(SQL_DROP_LINKS);
        statements.push(SQL_DROP_ATTRIBUTES);
        statements.push(SQL_DROP_TAGS);
        statements.push(SQL_DROP_RECORDS);
        assert(Seq::new(statements@.len(), |i: int| statements@[i]@) =~= seq![
            SQL_DROP_LINKS@,
            SQL_DROP_ATTRIBUTES@,
            SQL_DROP_TAGS@,
            SQL_DROP_RECORDS@,
        ]);
        self.statements_execute(&statements)
    }

    /// Begins a transaction.
    fn begin_transaction<'b>(&'b mut self) -> (r: Result<
        ContainerSqliteTransaction<'b>,
        ContainerSqliteError,
    >)
        ensures
            r matches Err(e) ==> e is BeginTransactionFailed,
    {
        match sqlite_transaction(&mut self.conn) {
            Ok(tx) => Ok(ContainerSqliteTransaction { tx }),
            Err(err) => Err(ContainerSqliteError::BeginTransactionFailed { err }),
        }
    }
}

} // verus!
