//! The `rusqlite` crate, as far as the container uses it.
//!
//! Every function here hands its arguments to one function of `rusqlite` and
//! its result back. What it says of the result is taken on trust. Of what a
//! database does nothing is said at all: the container treats every result
//! of every statement as it comes.

use vstd::prelude::*;

verus! {

/// `rusqlite::Error`: why a call of `rusqlite` failed.
#[verifier::external_type_specification]
#[verifier::external_body]
pub struct ExSqliteError(rusqlite::Error);

/// `rusqlite::Connection`: a connection to a database.
#[verifier::external_type_specification]
#[verifier::external_body]
pub struct ExSqliteConnection(rusqlite::Connection);

/// `rusqlite::Transaction`: a transaction on a connection.
#[verifier::external_type_specification]
#[verifier::external_body]
pub struct ExSqliteTransaction<'a>(rusqlite::Transaction<'a>);

/// `rusqlite::Statement`: a prepared statement.
#[verifier::external_type_specification]
#[verifier::external_body]
pub struct ExSqliteStatement<'a>(rusqlite::Statement<'a>);

/// `rusqlite::types::ValueRef`: a value of a column of a row, borrowed from
/// the row.
#[verifier::external_type_specification]
#[verifier::external_body]
pub struct ExSqliteValueRef<'a>(rusqlite::types::ValueRef<'a>);

/// `rusqlite::types::ToSqlOutput`: a value to bind to a parameter of a
/// statement.
#[verifier::external_type_specification]
#[verifier::external_body]
pub struct ExSqliteOutput<'a>(rusqlite::types::ToSqlOutput<'a>);

/// A value that the library binds to a parameter of a statement.
#[derive(Clone, Debug, PartialEq, Eq)]
pub enum SqlParam {
    Null,
    Integer(i64),
    Text(String),
    Blob(Vec<u8>),
}

/// A value of a column of a row that a query gave. A text is held as its
/// bytes, which may not be well-formed; of a floating point number only its
/// kind is held.
#[derive(Clone, Debug, PartialEq, Eq)]
pub enum SqlValue {
    Null,
    Integer(i64),
    Real,
    Text(Vec<u8>),
    Blob(Vec<u8>),
}

/// The parameter as `rusqlite` binds it: a value of the same kind, with the
/// same content.
///
/// Calls `rusqlite::types::ToSqlOutput::from` on what the parameter holds:
/// on `rusqlite::types::Null`, on the integer, on the text, or on the bytes.
#[verifier::external_body]
pub(crate) fn sqlite_param<'a>(param: &'a SqlParam) -> (r: rusqlite::types::ToSqlOutput<'a>) {
    match param {
        SqlParam::Null => rusqlite::types::ToSqlOutput::from(rusqlite::types::Null),
        SqlParam::Integer(value) => rusqlite::types::ToSqlOutput::from(*value),
        SqlParam::Text(value) => rusqlite::types::ToSqlOutput::from(value.as_str()),
        SqlParam::Blob(value) => rusqlite::types::ToSqlOutput::from(value.as_slice()),
    }
}

/// The value of a column as the library holds it: of the same kind, with a
/// copy of the content.
///
/// Tells the variants of `rusqlite::types::ValueRef` apart.
#[verifier::external_body]
pub(crate) fn sqlite_value(value: rusqlite::types::ValueRef<'_>) -> (r: SqlValue) {
    match value {
        rusqlite::types::ValueRef::Null => SqlValue::Null,
        rusqlite::types::ValueRef::Integer(i) => SqlValue::Integer(i),
        rusqlite::types::ValueRef::Real(_) => SqlValue::Real,
        rusqlite::types::ValueRef::Text(t) => SqlValue::Text(t.to_vec()),
        rusqlite::types::ValueRef::Blob(b) => SqlValue::Blob(b.to_vec()),
    }
}

/// The connection to an in-memory database.
///
/// Calls `rusqlite::Connection::open_in_memory`. Nothing is claimed of the
/// result.
#[verifier::external_body]
pub(crate) fn sqlite_open_in_memory() -> (r: Result<rusqlite::Connection, rusqlite::Error>) {
    rusqlite::Connection::open_in_memory()
}

/// The connection to the database in the file `path`.
///
/// Calls `rusqlite::Connection::open`. Nothing is claimed of the result.
#[verifier::external_body]
pub(crate) fn sqlite_open(path: &str) -> (r: Result<rusqlite::Connection, rusqlite::Error>) {
    rusqlite::Connection::open(path)
}

/// A new transaction on the connection.
///
/// Calls `rusqlite::Connection::transaction`. Nothing is claimed of the
/// result.
#[verifier::external_body]
pub(crate) fn sqlite_transaction<'a>(conn: &'a mut rusqlite::Connection) -> (r: Result<
    rusqlite::Transaction<'a>,
    rusqlite::Error,
>) {
    conn.transaction()
}

/// Commits the transaction.
///
/// Calls `rusqlite::Transaction::commit`. Nothing is claimed of the result.
#[verifier::external_body]
pub(crate) fn sqlite_commit(tx: rusqlite::Transaction<'_>) -> (r: Result<(), rusqlite::Error>) {
    tx.commit()
}

/// Rolls the transaction back.
///
/// Calls `rusqlite::Transaction::rollback`. Nothing is claimed of the
/// result.
#[verifier::external_body]
pub(crate) fn sqlite_rollback(tx: rusqlite::Transaction<'_>) -> (r: Result<(), rusqlite::Error>) {
    tx.rollback()
}

/// The connection that the transaction runs on.
///
/// Dereferences the `rusqlite::Transaction`.
#[verifier::external_body]
pub(crate) fn sqlite_connection<'a, 'b>(tx: &'a rusqlite::Transaction<'b>) -> (conn:
    &'a rusqlite::Connection) {
    tx
}

/// The statement prepared from `sql`.
///
/// Calls `rusqlite::Connection::prepare`. Nothing is claimed of the result.
#[verifier::external_body]
pub(crate) fn sqlite_prepare<'a>(conn: &'a rusqlite::Connection, sql: &str) -> (r: Result<
    rusqlite::Statement<'a>,
    rusqlite::Error,
>) {
    conn.prepare(sql)
}

/// Runs a statement that returns no rows, and gives the number of rows that
/// it changed.
///
/// Calls `rusqlite::Statement::execute` with the parameters, in their
/// order, as positional parameters. Nothing is claimed of the result.
#[verifier::external_body]
pub(crate) fn sqlite_execute(stmt: &mut rusqlite::Statement<'_>, params: &Vec<SqlParam>) -> (r:
    Result<usize, rusqlite::Error>) {
    stmt.execute(rusqlite::params_from_iter(params.iter().map(sqlite_param)))
}

/// Runs a query and gives its rows, each as the values of its first
/// `columns` columns or as the error that reading it gave.
///
/// Calls `rusqlite::Statement::query_map` with the parameters, in their
/// order, as positional parameters; each row is read by
/// `rusqlite::Row::get_ref`, column by column. Of what the rows hold nothing
/// is claimed; a row that was read has one value for each of the columns.
#[verifier::external_body]
pub(crate) fn sqlite_query(
    stmt: &mut rusqlite::Statement<'_>,
    params: &Vec<SqlParam>,
    columns: usize,
) -> (r: Result<Vec<Result<Vec<SqlValue>, rusqlite::Error>>, rusqlite::Error>)
    ensures
        r matches Ok(rows) ==> forall|i: int|
            0 <= i < rows@.len() ==> match #[trigger] rows@[i] {
                Ok(values) => values@.len() == columns,
                Err(_) => true,
            },
{
    let rows = stmt.query_map(
        rusqlite::params_from_iter(params.iter().map(sqlite_param)),
        |row| (0..columns).map(|i| row.get_ref(i).map(sqlite_value)).collect(),
    )?;
    Ok(rows.collect())
}

/// Mathematical model of [`SqlParam`].
pub enum SqlParamView {
    Null,
    Integer(i64),
    Text(Seq<char>),
    Blob(Seq<u8>),
}

impl View for SqlParam {
    type V = SqlParamView;

    open spec fn view(&self) -> SqlParamView {
        match self {
            SqlParam::Null => SqlParamView::Null,
            SqlParam::Integer(i) => SqlParamView::Integer(*i),
            SqlParam::Text(text) => SqlParamView::Text(text@),
            SqlParam::Blob(bytes) => SqlParamView::Blob(bytes@),
        }
    }
}

impl DeepView for SqlParam {
    type V = SqlParamView;

    open spec fn deep_view(&self) -> SqlParamView {
        self.view()
    }
}

/// Mathematical model of [`SqlValue`].
pub enum SqlValueView {
    Null,
    Integer(i64),
    Real,
    Text(Seq<u8>),
    Blob(Seq<u8>),
}

impl View for SqlValue {
    type V = SqlValueView;

    open spec fn view(&self) -> SqlValueView {
        match self {
            SqlValue::Null => SqlValueView::Null,
            SqlValue::Integer(i) => SqlValueView::Integer(*i),
            SqlValue::Real => SqlValueView::Real,
            SqlValue::Text(bytes) => SqlValueView::Text(bytes@),
            SqlValue::Blob(bytes) => SqlValueView::Blob(bytes@),
        }
    }
}

impl DeepView for SqlValue {
    type V = SqlValueView;

    open spec fn deep_view(&self) -> SqlValueView {
        self.view()
    }
}

} // verus!
