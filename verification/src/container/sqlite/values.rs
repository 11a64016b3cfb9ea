//! Values of columns and rows of queries: how references and texts are held
//! in columns, and what the rows of each query are read as.

use crate::container::rows::{
    attributes_from_rows, attributes_result, endpoints, endpoints_from_rows, link_rows,
    payload_from_rows, payload_result, tags_from_rows, tags_result,
};
use crate::container::sqlite::driver::{SqlParam, SqlParamView, SqlValue, SqlValueView};
use crate::container::sqlite::ContainerSqliteError;
use crate::container::DataErrorView;
use crate::container::tables::{copy_payload, push_row};
use crate::entity::{keys_of, EntityId, EntityIdVer};
use crate::text::utf8_text;
use vstd::prelude::*;
use vstd::utf8::{decode_utf8, encode_utf8, valid_utf8};

verus! {

/// Two to the power of 64.
pub const U64_RANGE: i128 = 0x1_0000_0000_0000_0000;

/// The integer that stands in a column for an unsigned number: the number
/// itself where it fits, and else the number less two to the power of 64.
pub open spec fn column_of(x: u64) -> i64 {
    if x <= i64::MAX {
        x as i64
    } else {
        (x - U64_RANGE) as i64
    }
}

/// The unsigned number that an integer in a column stands for.
pub open spec fn number_of(c: i64) -> u64 {
    if c >= 0 {
        c as u64
    } else {
        (c + U64_RANGE) as u64
    }
}

/// Every unsigned number is read back from its column, and every column
/// stands for one unsigned number.
pub proof fn lemma_column_round_trip(x: u64, c: i64)
    ensures
        number_of(column_of(x)) == x,
        column_of(number_of(c)) == c,
{
}

/// The integer that stands in a column for `x`.
pub fn to_column(x: u64) -> (c: i64)
    ensures
        c == column_of(x),
{
    if x <= 0x7fff_ffff_ffff_ffff {
        x as i64
    } else {
        let high: u64 = x - 0x8000_0000_0000_0000;
        (high as i64) + i64::MIN
    }
}

/// The unsigned number that the integer `c` in a column stands for.
pub fn from_column(c: i64) -> (x: u64)
    ensures
        x == number_of(c),
{
    if c >= 0 {
        c as u64
    } else {
        let low: i64 = c - i64::MIN;
        (low as u64) + 0x8000_0000_0000_0000
    }
}

/// The three columns that every row starts with: the low half and the high
/// half of the identifier, and the version.
pub open spec fn key_columns(eid: EntityIdVer) -> Seq<i64> {
    seq![column_of(eid.id.spec_lo()), column_of(eid.id.spec_hi()), column_of(eid.ver)]
}

/// The reference that three columns stand for.
pub open spec fn key_of_columns(lo: i64, hi: i64, ver: i64) -> EntityIdVer {
    EntityIdVer { id: EntityId::spec_from_halves(number_of(lo), number_of(hi)), ver: number_of(ver) }
}

/// Every reference is read back from its three columns.
pub proof fn lemma_key_round_trip(eid: EntityIdVer)
    ensures
        key_of_columns(key_columns(eid)[0], key_columns(eid)[1], key_columns(eid)[2]) == eid,
{
    eid.id.lemma_halves_join();
}

/// The text that a value holds.
pub open spec fn text_value(value: SqlValueView) -> Option<Seq<char>> {
    match value {
        SqlValueView::Text(bytes) => if valid_utf8(bytes) {
            Some(decode_utf8(bytes))
        } else {
            None
        },
        _ => None,
    }
}

/// The optional payload that a value holds.
pub open spec fn payload_value(value: SqlValueView) -> Option<Option<Seq<u8>>> {
    match value {
        SqlValueView::Null => Some(None),
        SqlValueView::Blob(bytes) => Some(Some(bytes)),
        _ => None,
    }
}

/// A text that is written is the text that is read.
pub proof fn lemma_text_round_trip(text: Seq<char>)
    ensures
        text_value(SqlValueView::Text(encode_utf8(text))) == Some(text),
{
    vstd::utf8::encode_utf8_valid_utf8(text);
    vstd::utf8::encode_utf8_decode_utf8(text);
}

/// The tag in a row of one text.
pub open spec fn tag_row(row: Seq<SqlValueView>) -> Option<Seq<char>> {
    if row.len() == 1 {
        text_value(row[0])
    } else {
        None
    }
}

/// The key and the value in a row of two texts.
pub open spec fn attribute_row(row: Seq<SqlValueView>) -> Option<(Seq<char>, Seq<char>)> {
    if row.len() == 2 && text_value(row[0]) is Some && text_value(row[1]) is Some {
        Some((text_value(row[0]).unwrap(), text_value(row[1]).unwrap()))
    } else {
        None
    }
}

/// The optional payload in a row of one blob or null.
pub open spec fn payload_row(row: Seq<SqlValueView>) -> Option<Option<Seq<u8>>> {
    if row.len() == 1 {
        payload_value(row[0])
    } else {
        None
    }
}

/// The reference in a row of three integers.
pub open spec fn key_row(row: Seq<SqlValueView>) -> Option<EntityIdVer> {
    if row.len() == 3 && row[0] is Integer && row[1] is Integer && row[2] is Integer {
        Some(key_of_columns(row[0]->Integer_0, row[1]->Integer_0, row[2]->Integer_0))
    } else {
        None
    }
}

/// The direction and the endpoint in a row of four integers. The direction
/// is towards the endpoint unless the first integer is zero.
pub open spec fn link_row(row: Seq<SqlValueView>) -> Option<(bool, EntityIdVer)> {
    if row.len() == 4 && row[0] is Integer && key_row(row.subrange(1, 4)) is Some {
        Some((row[0]->Integer_0 != 0, key_row(row.subrange(1, 4)).unwrap()))
    } else {
        None
    }
}

/// The tags in the rows, if every row holds a tag.
pub open spec fn decoded_tags(rows: Seq<Seq<SqlValueView>>) -> Option<Seq<Seq<char>>> {
    if forall|i: int| 0 <= i < rows.len() ==> tag_row(#[trigger] rows[i]) is Some {
        Some(Seq::new(rows.len(), |i: int| tag_row(rows[i]).unwrap()))
    } else {
        None
    }
}

/// The attributes in the rows, if every row holds an attribute.
pub open spec fn decoded_attributes(rows: Seq<Seq<SqlValueView>>) -> Option<
    Seq<(Seq<char>, Seq<char>)>,
> {
    if forall|i: int| 0 <= i < rows.len() ==> attribute_row(#[trigger] rows[i]) is Some {
        Some(Seq::new(rows.len(), |i: int| attribute_row(rows[i]).unwrap()))
    } else {
        None
    }
}

/// The optional payloads in the rows, if every row holds one.
pub open spec fn decoded_payloads(rows: Seq<Seq<SqlValueView>>) -> Option<Seq<Option<Seq<u8>>>> {
    if forall|i: int| 0 <= i < rows.len() ==> payload_row(#[trigger] rows[i]) is Some {
        Some(Seq::new(rows.len(), |i: int| payload_row(rows[i]).unwrap()))
    } else {
        None
    }
}

/// The references in the rows, if every row holds a reference.
pub open spec fn decoded_keys(rows: Seq<Seq<SqlValueView>>) -> Option<Seq<EntityIdVer>> {
    if forall|i: int| 0 <= i < rows.len() ==> key_row(#[trigger] rows[i]) is Some {
        Some(Seq::new(rows.len(), |i: int| key_row(rows[i]).unwrap()))
    } else {
        None
    }
}

/// The directions and endpoints in the rows, if every row holds them.
pub open spec fn decoded_links(rows: Seq<Seq<SqlValueView>>) -> Option<Seq<(bool, EntityIdVer)>> {
    if forall|i: int| 0 <= i < rows.len() ==> link_row(#[trigger] rows[i]) is Some {
        Some(Seq::new(rows.len(), |i: int| link_row(rows[i]).unwrap()))
    } else {
        None
    }
}

/// The text that the value holds.
fn text_of(value: SqlValue) -> (r: Option<String>)
    ensures
        r.deep_view() == text_value(value@),
{
    match value {
        SqlValue::Text(bytes) => match utf8_text(bytes) {
            Ok(text) => Some(text),
            Err(_) => None,
        },
        _ => None,
    }
}

/// The integer that the value holds.
fn integer_of(value: &SqlValue) -> (r: Option<i64>)
    ensures
        r is Some <==> value@ is Integer,
        r matches Some(c) ==> value@ == SqlValueView::Integer(c),
{
    match value {
        SqlValue::Integer(c) => Some(*c),
        _ => None,
    }
}

/// The tag in the row.
fn tag_of_row(row: Vec<SqlValue>) -> (r: Option<String>)
    ensures
        r.deep_view() == tag_row(row.deep_view()),
{
    let mut row = row;
    if row.len() != 1 {
        return None;
    }
    match row.pop() {
        None => None,
        Some(value) => text_of(value),
    }
}

/// The key and the value in the row.
fn attribute_of_row(row: Vec<SqlValue>) -> (r: Option<(String, String)>)
    ensures
        r.deep_view() == attribute_row(row.deep_view()),
{
    let mut row = row;
    let ghost all = row.deep_view();
    if row.len() != 2 {
        return None;
    }
    let second = row.pop();
    let first = row.pop();
    match (first, second) {
        (Some(first), Some(second)) => {
            assert(first@ == all[0] && second@ == all[1]);
            match (text_of(first), text_of(second)) {
                (Some(key), Some(value)) => Some((key, value)),
                _ => None,
            }
        },
        _ => None,
    }
}

/// The optional payload in the row.
fn payload_of_row(row: Vec<SqlValue>) -> (r: Option<Option<Vec<u8>>>)
    ensures
        r.deep_view() == payload_row(row.deep_view()),
{
    let mut row = row;
    if row.len() != 1 {
        return None;
    }
    match row.pop() {
        Some(SqlValue::Null) => Some(None),
        Some(SqlValue::Blob(bytes)) => {
            assert(bytes.deep_view() =~= bytes@);
            Some(Some(bytes))
        },
        _ => None,
    }
}

/// The reference in the three values of the row from index `from` on.
fn key_of_values(row: &Vec<SqlValue>, from: usize) -> (r: Option<EntityIdVer>)
    requires
        from + 3 == row.len(),
    ensures
        r == key_row(row.deep_view().subrange(from as int, from + 3)),
{
    let ghost part = row.deep_view().subrange(from as int, from + 3);
    assert(part[0] == row@[from as int]@ && part[1] == row@[from + 1]@ && part[2] == row@[from
        + 2]@);
    match (integer_of(&row[from]), integer_of(&row[from + 1]), integer_of(&row[from + 2])) {
        (Some(lo), Some(hi), Some(ver)) => Some(
            EntityIdVer::new(
                EntityId::from_halves(from_column(lo), from_column(hi)),
                from_column(ver),
            ),
        ),
        _ => None,
    }
}

/// The reference in the row.
fn key_of_row(row: &Vec<SqlValue>) -> (r: Option<EntityIdVer>)
    ensures
        r == key_row(row.deep_view()),
{
    if row.len() != 3 {
        return None;
    }
    assert(row.deep_view().subrange(0, 3) =~= row.deep_view());
    key_of_values(row, 0)
}

/// The direction and the endpoint in the row.
fn link_of_row(row: &Vec<SqlValue>) -> (r: Option<(bool, EntityIdVer)>)
    ensures
        r == link_row(row.deep_view()),
{
    if row.len() != 4 {
        return None;
    }
    match (integer_of(&row[0]), key_of_values(row, 1)) {
        (Some(direction), Some(endpoint)) => Some((direction != 0, endpoint)),
        _ => None,
    }
}

/// The tags in the rows.
pub fn tags_of_rows(rows: Vec<Vec<SqlValue>>) -> (r: Option<Vec<String>>)
    ensures
        r.deep_view() == decoded_tags(rows.deep_view()),
{
    let ghost all = rows.deep_view();
    let ghost plain = rows@;
    let mut tags: Vec<String> = Vec::new();
    for row in it: rows
        invariant
            it.seq() == plain,
            all == rows.deep_view(),
            all.len() == plain.len(),
            forall|k: int| 0 <= k < plain.len() ==> all[k] == (#[trigger] plain[k]).deep_view(),
            tags.deep_view().len() == it.index(),
            forall|k: int|
                0 <= k < it.index() ==> tag_row(#[trigger] all[k]) == Some(tags.deep_view()[k]),
    {
        let ghost before = tags.deep_view();
        match tag_of_row(row) {
            None => {
                assert(tag_row(all[it.index() as int]) is None);
                return None;
            },
            Some(tag) => {
                push_row(&mut tags, tag);
            },
        }
    }
    assert(tags.deep_view() =~= decoded_tags(all).unwrap());
    Some(tags)
}

/// The attributes in the rows.
pub fn attributes_of_rows(rows: Vec<Vec<SqlValue>>) -> (r: Option<Vec<(String, String)>>)
    ensures
        r.deep_view() == decoded_attributes(rows.deep_view()),
{
    let ghost all = rows.deep_view();
    let ghost plain = rows@;
    let mut attributes: Vec<(String, String)> = Vec::new();
    for row in it: rows
        invariant
            it.seq() == plain,
            all == rows.deep_view(),
            all.len() == plain.len(),
            forall|k: int| 0 <= k < plain.len() ==> all[k] == (#[trigger] plain[k]).deep_view(),
            attributes.deep_view().len() == it.index(),
            forall|k: int|
                0 <= k < it.index() ==> attribute_row(#[trigger] all[k]) == Some(
                    attributes.deep_view()[k],
                ),
    {
        match attribute_of_row(row) {
            None => {
                assert(attribute_row(all[it.index() as int]) is None);
                return None;
            },
            Some(attribute) => {
                push_row(&mut attributes, attribute);
            },
        }
    }
    assert(attributes.deep_view() =~= decoded_attributes(all).unwrap());
    Some(attributes)
}

/// The optional payloads in the rows.
pub fn payloads_of_rows(rows: Vec<Vec<SqlValue>>) -> (r: Option<Vec<Option<Vec<u8>>>>)
    ensures
        r.deep_view() == decoded_payloads(rows.deep_view()),
{
    let ghost all = rows.deep_view();
    let ghost plain = rows@;
    let mut payloads: Vec<Option<Vec<u8>>> = Vec::new();
    for row in it: rows
        invariant
            it.seq() == plain,
            all == rows.deep_view(),
            all.len() == plain.len(),
            forall|k: int| 0 <= k < plain.len() ==> all[k] == (#[trigger] plain[k]).deep_view(),
            payloads.deep_view().len() == it.index(),
            forall|k: int|
                0 <= k < it.index() ==> payload_row(#[trigger] all[k]) == Some(
                    payloads.deep_view()[k],
                ),
    {
        match payload_of_row(row) {
            None => {
                assert(payload_row(all[it.index() as int]) is None);
                return None;
            },
            Some(payload) => {
                push_row(&mut payloads, payload);
            },
        }
    }
    assert(payloads.deep_view() =~= decoded_payloads(all).unwrap());
    Some(payloads)
}

/// The references in the rows.
pub fn keys_of_rows(rows: &Vec<Vec<SqlValue>>) -> (r: Option<Vec<EntityIdVer>>)
    ensures
        r.deep_view() == decoded_keys(rows.deep_view()),
{
    let ghost all = rows.deep_view();
    let mut refs: Vec<EntityIdVer> = Vec::new();
    let n: usize = rows.len();
    let mut i: usize = 0;
    while i < n
        invariant
            n == rows.len(),
            all == rows.deep_view(),
            i <= n,
            refs.len() == i,
            forall|k: int| 0 <= k < i ==> key_row(#[trigger] all[k]) == Some(refs@[k]),
        decreases n - i,
    {
        match key_of_row(&rows[i]) {
            None => {
                assert(key_row(all[i as int]) is None);
                return None;
            },
            Some(key) => {
                refs.push(key);
            },
        }
        i += 1;
    }
    assert(refs.deep_view() =~= decoded_keys(all).unwrap());
    Some(refs)
}

/// The directions and endpoints in the rows.
pub fn links_of_rows(rows: &Vec<Vec<SqlValue>>) -> (r: Option<Vec<(bool, EntityIdVer)>>)
    ensures
        r.deep_view() == decoded_links(rows.deep_view()),
{
    let ghost all = rows.deep_view();
    let mut links: Vec<(bool, EntityIdVer)> = Vec::new();
    let n: usize = rows.len();
    let mut i: usize = 0;
    while i < n
        invariant
            n == rows.len(),
            all == rows.deep_view(),
            i <= n,
            links.len() == i,
            forall|k: int| 0 <= k < i ==> link_row(#[trigger] all[k]) == Some(links@[k]),
        decreases n - i,
    {
        match link_of_row(&rows[i]) {
            None => {
                assert(link_row(all[i as int]) is None);
                return None;
            },
            Some(link) => {
                links.push(link);
            },
        }
        i += 1;
    }
    assert(links.deep_view() =~= decoded_links(all).unwrap());
    Some(links)
}

/// The rows of a query, if every one of them could be read, and else the
/// error that reading the first unreadable one gave.
pub fn rows_or_error(rows: Vec<Result<Vec<SqlValue>, rusqlite::Error>>) -> (r: Result<
    Vec<Vec<SqlValue>>,
    ContainerSqliteError,
>)
    ensures
        match r {
            Ok(values) => values@.len() == rows@.len() && forall|i: int|
                0 <= i < rows@.len() ==> #[trigger] rows@[i] == Ok::<Vec<SqlValue>, rusqlite::Error>(
                    values@[i],
                ),
            Err(e) => exists|i: int|
                0 <= i < rows@.len() && (#[trigger] rows@[i] matches Err(err) && e
                    == (ContainerSqliteError::ErrorRetrievingRecordData { err })) && forall|j: int|
                    0 <= j < i ==> (#[trigger] rows@[j]) is Ok,
        },
{
    let ghost all = rows@;
    let mut values: Vec<Vec<SqlValue>> = Vec::new();
    for row in it: rows
        invariant
            it.seq() == all,
            all == rows@,
            values@.len() == it.index(),
            forall|k: int|
                0 <= k < it.index() ==> #[trigger] all[k] == Ok::<Vec<SqlValue>, rusqlite::Error>(
                    values@[k],
                ),
    {
        match row {
            Err(err) => {
                assert(all[it.index() as int] is Err);
                return Err(ContainerSqliteError::ErrorRetrievingRecordData { err });
            },
            Ok(value) => {
                values.push(value);
            },
        }
    }
    Ok(values)
}

/// Whether a delete that changed `count` rows removed a row.
pub fn removed_a_row(count: usize) -> (r: bool)
    ensures
        r == (count > 0),
{
    count > 0
}

/// What an insert of one row by the statement `sql` gives that changed
/// `count` rows: it fails unless it changed one row.
pub fn inserted_one_row(sql: &str, count: usize) -> (r: Result<(), ContainerSqliteError>)
    ensures
        count == 1 ==> r is Ok,
        count != 1 ==> (r matches Err(
            ContainerSqliteError::FailedToInsert1Entry { sql: tried, nr_inserted },
        ) && tried@ == sql@ && nr_inserted == count),
{
    if count == 1 {
        Ok(())
    } else {
        Err(ContainerSqliteError::FailedToInsert1Entry { sql: sql.to_owned(), nr_inserted: count })
    }
}

/// The value that a column holds once the parameter is written to it: the
/// same value, with a text as its UTF-8 encoding.
pub open spec fn written(param: SqlParamView) -> SqlValueView {
    match param {
        SqlParamView::Null => SqlValueView::Null,
        SqlParamView::Integer(i) => SqlValueView::Integer(i),
        SqlParamView::Text(text) => SqlValueView::Text(encode_utf8(text)),
        SqlParamView::Blob(bytes) => SqlValueView::Blob(bytes),
    }
}

/// The values that the columns of a row hold once the parameters are
/// written to them, one by one.
pub open spec fn written_row(params: Seq<SqlParamView>) -> Seq<SqlValueView> {
    Seq::new(params.len(), |i: int| written(params[i]))
}

/// The parameters for the three columns that every row starts with.
pub open spec fn key_params_of(eid: EntityIdVer) -> Seq<SqlParamView> {
    seq![
        SqlParamView::Integer(column_of(eid.id.spec_lo())),
        SqlParamView::Integer(column_of(eid.id.spec_hi())),
        SqlParamView::Integer(column_of(eid.ver)),
    ]
}

/// The parameters for the two columns of an identifier.
pub open spec fn id_params_of(id: EntityId) -> Seq<SqlParamView> {
    seq![
        SqlParamView::Integer(column_of(id.spec_lo())),
        SqlParamView::Integer(column_of(id.spec_hi())),
    ]
}

/// The parameters for a row of the table of tags.
pub open spec fn tag_params_of(eid: EntityIdVer, tag: Seq<char>) -> Seq<SqlParamView> {
    key_params_of(eid).push(SqlParamView::Text(tag))
}

/// The parameters for a row of the table of attributes.
pub open spec fn attribute_params_of(eid: EntityIdVer, attribute: (Seq<char>, Seq<char>)) -> Seq<
    SqlParamView,
> {
    key_params_of(eid).push(SqlParamView::Text(attribute.0)).push(SqlParamView::Text(attribute.1))
}

/// The parameters for a row of the table of records: null for no payload.
pub open spec fn record_params_of(eid: EntityIdVer, data: Option<Seq<u8>>) -> Seq<SqlParamView> {
    key_params_of(eid).push(
        match data {
            None => SqlParamView::Null,
            Some(bytes) => SqlParamView::Blob(bytes),
        },
    )
}

/// The parameters for a row of the table of links: the direction is one
/// towards the endpoint and zero away from it.
pub open spec fn link_params_of(eid: EntityIdVer, endpoint: (bool, EntityIdVer)) -> Seq<
    SqlParamView,
> {
    key_params_of(eid).push(
        SqlParamView::Integer(
            if endpoint.0 {
                1
            } else {
                0
            },
        ),
    ) + key_params_of(endpoint.1)
}

/// A row of the table of tags that is read as it was written gives the
/// reference and the tag that it was written for.
pub proof fn lemma_tag_row_read_back(eid: EntityIdVer, tag: Seq<char>)
    ensures
        key_row(written_row(tag_params_of(eid, tag)).subrange(0, 3)) == Some(eid),
        tag_row(written_row(tag_params_of(eid, tag)).subrange(3, 4)) == Some(tag),
{
    lemma_key_round_trip(eid);
    lemma_text_round_trip(tag);
}

/// A row of the table of attributes that is read as it was written gives
/// the reference and the attribute that it was written for.
pub proof fn lemma_attribute_row_read_back(eid: EntityIdVer, attribute: (Seq<char>, Seq<char>))
    ensures
        key_row(written_row(attribute_params_of(eid, attribute)).subrange(0, 3)) == Some(eid),
        attribute_row(written_row(attribute_params_of(eid, attribute)).subrange(3, 5)) == Some(
            attribute,
        ),
{
    lemma_key_round_trip(eid);
    lemma_text_round_trip(attribute.0);
    lemma_text_round_trip(attribute.1);
}

/// A row of the table of records that is read as it was written gives the
/// reference and the payload that it was written for: no payload for none,
/// and an empty one for an empty one.
pub proof fn lemma_record_row_read_back(eid: EntityIdVer, data: Option<Seq<u8>>)
    ensures
        key_row(written_row(record_params_of(eid, data)).subrange(0, 3)) == Some(eid),
        payload_row(written_row(record_params_of(eid, data)).subrange(3, 4)) == Some(data),
{
    lemma_key_round_trip(eid);
}

/// A row of the table of links that is read as it was written gives the
/// reference, the direction and the endpoint that it was written for.
pub proof fn lemma_link_row_read_back(eid: EntityIdVer, endpoint: (bool, EntityIdVer))
    ensures
        key_row(written_row(link_params_of(eid, endpoint)).subrange(0, 3)) == Some(eid),
        link_row(written_row(link_params_of(eid, endpoint)).subrange(3, 7)) == Some(endpoint),
{
    lemma_key_round_trip(eid);
    lemma_key_round_trip(endpoint.1);
    let row = written_row(link_params_of(eid, endpoint)).subrange(3, 7);
    assert(row.subrange(1, 4) =~= written_row(key_params_of(endpoint.1)));
}

/// The rows that the query for the tags of `eid` gives where the table
/// holds, for `eid`, the rows written for these tags and no others: the
/// column of the tag of each, in order.
pub open spec fn tag_rows_read(eid: EntityIdVer, tags: Seq<Seq<char>>) -> Seq<Seq<SqlValueView>> {
    Seq::new(tags.len(), |i: int| written_row(tag_params_of(eid, tags[i])).subrange(3, 4))
}

/// The rows that the query for the attributes of `eid` gives where the
/// table holds, for `eid`, the rows written for these attributes and no
/// others: the columns of the key and the value of each, in order.
pub open spec fn attribute_rows_read(
    eid: EntityIdVer,
    attributes: Seq<(Seq<char>, Seq<char>)>,
) -> Seq<Seq<SqlValueView>> {
    Seq::new(
        attributes.len(),
        |i: int| written_row(attribute_params_of(eid, attributes[i])).subrange(3, 5),
    )
}

/// The rows that the query for the endpoints of `eid` gives where the table
/// holds, for `eid`, the rows written for these endpoints and no others.
pub open spec fn link_rows_read(eid: EntityIdVer, ends: Seq<(bool, EntityIdVer)>) -> Seq<
    Seq<SqlValueView>,
> {
    Seq::new(ends.len(), |i: int| written_row(link_params_of(eid, ends[i])).subrange(3, 7))
}

/// The rows that a query for references gives where the table holds the
/// rows written for these references and no others.
pub open spec fn key_rows_read(refs: Seq<EntityIdVer>) -> Seq<Seq<SqlValueView>> {
    Seq::new(refs.len(), |i: int| written_row(key_params_of(refs[i])))
}

/// Tags that are read as they were written are the tags that were put, in
/// their order: all of them, and nothing else. Where they are distinct, the
/// read succeeds with them.
pub proof fn lemma_tags_read_back(eid: EntityIdVer, tags: Seq<Seq<char>>)
    ensures
        decoded_tags(tag_rows_read(eid, tags)) == Some(tags),
        tags.no_duplicates() ==> tags_result(eid, tags) == Ok::<Seq<Seq<char>>, DataErrorView>(
            tags,
        ),
{
    let rows = tag_rows_read(eid, tags);
    assert forall|i: int| 0 <= i < rows.len() implies tag_row(#[trigger] rows[i]) == Some(
        tags[i],
    ) by {
        lemma_tag_row_read_back(eid, tags[i]);
    }
    assert(decoded_tags(rows).unwrap() =~= tags);
}

/// Two lists of the same distinct tags, in whatever order, are read back as
/// the same set.
pub proof fn lemma_tags_read_back_in_any_order(
    one: EntityIdVer,
    other: EntityIdVer,
    tags: Seq<Seq<char>>,
    shuffled: Seq<Seq<char>>,
)
    requires
        tags.no_duplicates(),
        shuffled.no_duplicates(),
        tags.to_set() == shuffled.to_set(),
    ensures
        tags_result(one, decoded_tags(tag_rows_read(one, tags)).unwrap()) matches Ok(got) && (
        tags_result(other, decoded_tags(tag_rows_read(other, shuffled)).unwrap()) matches Ok(
            others,
        ) && got.to_set() == others.to_set()),
{
    lemma_tags_read_back(one, tags);
    lemma_tags_read_back(other, shuffled);
}

/// Attributes that are read as they were written are the attributes that
/// were put, in their order. Where their keys are distinct, the read
/// succeeds with them.
pub proof fn lemma_attributes_read_back(eid: EntityIdVer, attributes: Seq<(Seq<char>, Seq<char>)>)
    ensures
        decoded_attributes(attribute_rows_read(eid, attributes)) == Some(attributes),
        keys_of(attributes).no_duplicates() ==> attributes_result(eid, attributes) == Ok::<
            Seq<(Seq<char>, Seq<char>)>,
            DataErrorView,
        >(attributes),
{
    let rows = attribute_rows_read(eid, attributes);
    assert forall|i: int| 0 <= i < rows.len() implies attribute_row(#[trigger] rows[i]) == Some(
        attributes[i],
    ) by {
        lemma_attribute_row_read_back(eid, attributes[i]);
    }
    assert(decoded_attributes(rows).unwrap() =~= attributes);
}

/// The payload row of a record that is read as it was written gives the
/// record with the payload that was put: none for none, and an empty one
/// for an empty one.
pub proof fn lemma_payload_read_back(eid: EntityIdVer, data: Option<Seq<u8>>)
    ensures
        decoded_payloads(seq![written_row(record_params_of(eid, data)).subrange(3, 4)]) == Some(
            seq![data],
        ),
        payload_result(eid, seq![data]) == Ok::<Option<Option<Seq<u8>>>, DataErrorView>(
            Some(data),
        ),
{
    let rows = seq![written_row(record_params_of(eid, data)).subrange(3, 4)];
    lemma_record_row_read_back(eid, data);
    assert forall|i: int| 0 <= i < rows.len() implies payload_row(#[trigger] rows[i]) == Some(
        data,
    ) by {}
    assert(decoded_payloads(rows).unwrap() =~= seq![data]);
}

/// The endpoint rows of a link that are read as they were written give the
/// endpoints that were put, on each side, in their order.
pub proof fn lemma_endpoints_read_back(
    eid: EntityIdVer,
    from: Seq<EntityIdVer>,
    to: Seq<EntityIdVer>,
)
    ensures
        decoded_links(link_rows_read(eid, link_rows(from, to))) == Some(link_rows(from, to)),
        endpoints(link_rows(from, to), false) == from,
        endpoints(link_rows(from, to), true) == to,
{
    let ends = link_rows(from, to);
    let rows = link_rows_read(eid, ends);
    assert forall|i: int| 0 <= i < rows.len() implies link_row(#[trigger] rows[i]) == Some(
        ends[i],
    ) by {
        lemma_link_row_read_back(eid, ends[i]);
    }
    assert(decoded_links(rows).unwrap() =~= ends);
    crate::container::rows::lemma_link_rows_round_trip(from, to);
}

/// References that are read as they were written are the references that
/// were put, in their order.
pub proof fn lemma_keys_read_back(refs: Seq<EntityIdVer>)
    ensures
        decoded_keys(key_rows_read(refs)) == Some(refs),
{
    let rows = key_rows_read(refs);
    assert forall|i: int| 0 <= i < rows.len() implies key_row(#[trigger] rows[i]) == Some(
        refs[i],
    ) by {
        lemma_key_round_trip(refs[i]);
        assert(rows[i] =~= written_row(key_params_of(refs[i])).subrange(0, 3));
    }
    assert(decoded_keys(rows).unwrap() =~= refs);
}

/// Where the queries give no row, an entity has no tag and no attribute,
/// there is no record and no link, and no reference is listed.
pub proof fn lemma_nothing_read(eid: EntityIdVer)
    ensures
        decoded_tags(Seq::empty()) == Some(Seq::<Seq<char>>::empty()),
        tags_result(eid, Seq::empty()) == Ok::<Seq<Seq<char>>, DataErrorView>(Seq::empty()),
        decoded_attributes(Seq::empty()) == Some(Seq::<(Seq<char>, Seq<char>)>::empty()),
        attributes_result(eid, Seq::empty()) == Ok::<Seq<(Seq<char>, Seq<char>)>, DataErrorView>(
            Seq::empty(),
        ),
        decoded_payloads(Seq::empty()) == Some(Seq::<Option<Seq<u8>>>::empty()),
        payload_result(eid, Seq::empty()) == Ok::<Option<Option<Seq<u8>>>, DataErrorView>(None),
        decoded_keys(Seq::empty()) == Some(Seq::<EntityIdVer>::empty()),
{
    let none = Seq::<Seq<SqlValueView>>::empty();
    assert(decoded_tags(none).unwrap() =~= Seq::<Seq<char>>::empty());
    assert(decoded_attributes(none).unwrap() =~= Seq::<(Seq<char>, Seq<char>)>::empty());
    assert(decoded_payloads(none).unwrap() =~= Seq::<Option<Seq<u8>>>::empty());
    assert(decoded_keys(none).unwrap() =~= Seq::<EntityIdVer>::empty());
    assert(keys_of(Seq::<(Seq<char>, Seq<char>)>::empty()) =~= Seq::<Seq<char>>::empty());
}

/// The parameters for the three columns that every row starts with.
pub fn key_params(eid: &EntityIdVer) -> (params: Vec<SqlParam>)
    ensures
        params.deep_view() == key_params_of(*eid),
{
    let mut params: Vec<SqlParam> = Vec::new();
    params.push(SqlParam::Integer(to_column(eid.id.lo())));
    params.push(SqlParam::Integer(to_column(eid.id.hi())));
    params.push(SqlParam::Integer(to_column(eid.ver)));
    assert(params.deep_view() =~= key_params_of(*eid));
    params
}

/// The parameters for the two columns of an identifier.
pub fn id_params(id: &EntityId) -> (params: Vec<SqlParam>)
    ensures
        params.deep_view() == id_params_of(*id),
{
    let mut params: Vec<SqlParam> = Vec::new();
    params.push(SqlParam::Integer(to_column(id.lo())));
    params.push(SqlParam::Integer(to_column(id.hi())));
    assert(params.deep_view() =~= id_params_of(*id));
    params
}

/// The parameters for the rows of the table of tags that hold the tags of
/// `eid`: one row for each tag, in order.
pub fn tag_runs(eid: &EntityIdVer, tags: &[String]) -> (runs: Vec<Vec<SqlParam>>)
    ensures
        runs.deep_view() == Seq::new(
            tags.deep_view().len(),
            |i: int| tag_params_of(*eid, tags.deep_view()[i]),
        ),
{
    let ghost all = Seq::new(
        tags.deep_view().len(),
        |i: int| tag_params_of(*eid, tags.deep_view()[i]),
    );
    let mut runs: Vec<Vec<SqlParam>> = Vec::new();
    let n: usize = tags.len();
    let mut i: usize = 0;
    assert(runs.deep_view() =~= all.take(0));
    while i < n
        invariant
            n == tags.len(),
            all == Seq::new(
                tags.deep_view().len(),
                |i: int| tag_params_of(*eid, tags.deep_view()[i]),
            ),
            i <= n,
            runs.deep_view() == all.take(i as int),
        decreases n - i,
    {
        let mut params = key_params(eid);
        let ghost key = params.deep_view();
        params.push(SqlParam::Text(tags[i].clone()));
        assert(params.deep_view() =~= key.push(SqlParamView::Text(tags@[i as int]@)));
        push_row(&mut runs, params);
        assert(all.take(i as int).push(all[i as int]) =~= all.take(i + 1));
        i += 1;
    }
    assert(all.take(n as int) =~= all);
    runs
}

/// The parameters for the rows of the table of attributes that hold the
/// attributes of `eid`: one row for each attribute, in order.
pub fn attribute_runs(eid: &EntityIdVer, attributes: &[(String, String)]) -> (runs: Vec<
    Vec<SqlParam>,
>)
    ensures
        runs.deep_view() == Seq::new(
            attributes.deep_view().len(),
            |i: int| attribute_params_of(*eid, attributes.deep_view()[i]),
        ),
{
    let ghost all = Seq::new(
        attributes.deep_view().len(),
        |i: int| attribute_params_of(*eid, attributes.deep_view()[i]),
    );
    let mut runs: Vec<Vec<SqlParam>> = Vec::new();
    let n: usize = attributes.len();
    let mut i: usize = 0;
    assert(runs.deep_view() =~= all.take(0));
    while i < n
        invariant
            n == attributes.len(),
            all == Seq::new(
                attributes.deep_view().len(),
                |i: int| attribute_params_of(*eid, attributes.deep_view()[i]),
            ),
            i <= n,
            runs.deep_view() == all.take(i as int),
        decreases n - i,
    {
        let mut params = key_params(eid);
        let ghost key = params.deep_view();
        params.push(SqlParam::Text(attributes[i].0.clone()));
        params.push(SqlParam::Text(attributes[i].1.clone()));
        assert(params.deep_view() =~= key.push(
            SqlParamView::Text(attributes@[i as int].0@),
        ).push(SqlParamView::Text(attributes@[i as int].1@)));
        assert(attributes.deep_view()[i as int] == (
            attributes@[i as int].0@,
            attributes@[i as int].1@,
        ));
        push_row(&mut runs, params);
        assert(all.take(i as int).push(all[i as int]) =~= all.take(i + 1));
        i += 1;
    }
    assert(all.take(n as int) =~= all);
    runs
}

/// The parameters for the row of the table of records that holds the
/// payload of `eid`.
pub fn record_params(eid: &EntityIdVer, data: &Option<Vec<u8>>) -> (params: Vec<SqlParam>)
    ensures
        params.deep_view() == record_params_of(*eid, data.deep_view()),
{
    let mut params = key_params(eid);
    let ghost key = params.deep_view();
    match copy_payload(data) {
        None => {
            params.push(SqlParam::Null);
            assert(params.deep_view() =~= key.push(SqlParamView::Null));
        },
        Some(bytes) => {
            assert(data.deep_view() == Some(bytes@)) by {
                assert(bytes.deep_view() =~= bytes@);
            }
            params.push(SqlParam::Blob(bytes));
            assert(params.deep_view() =~= key.push(SqlParamView::Blob(bytes@)));
        },
    }
    params
}

/// The parameters for a row of the table of links.
pub fn link_params(eid: &EntityIdVer, is_to: bool, endpoint: &EntityIdVer) -> (params: Vec<
    SqlParam,
>)
    ensures
        params.deep_view() == link_params_of(*eid, (is_to, *endpoint)),
{
    let mut params = key_params(eid);
    let ghost key = params.deep_view();
    let direction: i64 = if is_to {
        1
    } else {
        0
    };
    params.push(SqlParam::Integer(direction));
    params.push(SqlParam::Integer(to_column(endpoint.id.lo())));
    params.push(SqlParam::Integer(to_column(endpoint.id.hi())));
    params.push(SqlParam::Integer(to_column(endpoint.ver)));
    assert(params.deep_view() =~= link_params_of(*eid, (is_to, *endpoint)));
    params
}

/// The parameters for the rows of the table of links that hold the
/// endpoints of `eid`: one row for each endpoint where the link starts, then
/// one for each endpoint where it ends.
pub fn link_runs(eid: &EntityIdVer, from: &Vec<EntityIdVer>, to: &Vec<EntityIdVer>) -> (runs: Vec<
    Vec<SqlParam>,
>)
    ensures
        runs.deep_view() == Seq::new(
            link_rows(from@, to@).len(),
            |i: int| link_params_of(*eid, link_rows(from@, to@)[i]),
        ),
{
    let ghost rows = link_rows(from@, to@);
    let ghost all = Seq::new(rows.len(), |i: int| link_params_of(*eid, rows[i]));
    let mut runs: Vec<Vec<SqlParam>> = Vec::new();
    let n: usize = from.len();
    let mut i: usize = 0;
    assert(runs.deep_view() =~= all.take(0));
    while i < n
        invariant
            n == from.len(),
            rows == link_rows(from@, to@),
            all == Seq::new(rows.len(), |i: int| link_params_of(*eid, rows[i])),
            i <= n,
            runs.deep_view() == all.take(i as int),
        decreases n - i,
    {
        assert(rows[i as int] == (false, from@[i as int]));
        push_row(&mut runs, link_params(eid, false, &from[i]));
        assert(all.take(i as int).push(all[i as int]) =~= all.take(i + 1));
        i += 1;
    }
    let m: usize = to.len();
    let mut j: usize = 0;
    while j < m
        invariant
            n == from.len(),
            m == to.len(),
            rows == link_rows(from@, to@),
            all == Seq::new(rows.len(), |i: int| link_params_of(*eid, rows[i])),
            j <= m,
            runs.deep_view() == all.take(n + j),
        decreases m - j,
    {
        assert(rows[n + j] == (true, to@[j as int]));
        push_row(&mut runs, link_params(eid, true, &to[j]));
        assert(all.take(n + j).push(all[n + j]) =~= all.take(n + j + 1));
        j += 1;
    }
    assert(all.take(n + m) =~= all);
    runs
}

/// The tags of `eid` from the rows of the query `sql` for its tags.
///
/// Fails where a row is not one text, and where a tag repeats an earlier
/// one.
pub fn tags_from_values(eid: &EntityIdVer, sql: &str, rows: Vec<Vec<SqlValue>>) -> (r: Result<
    Vec<String>,
    ContainerSqliteError,
>)
    ensures
        match decoded_tags(rows.deep_view()) {
            None => r matches Err(ContainerSqliteError::UnexpectedRow { sql: s }) && s@ == sql@,
            Some(tags) => match tags_result(*eid, tags) {
                Ok(tags) => r matches Ok(found) && found.deep_view() == tags,
                Err(e) => r matches Err(found) && found.says(e),
            },
        },
{
    match tags_of_rows(rows) {
        None => Err(ContainerSqliteError::UnexpectedRow { sql: sql.to_owned() }),
        Some(tags) => match tags_from_rows(eid, tags) {
            Ok(tags) => Ok(tags),
            Err(e) => Err(ContainerSqliteError::from_data_error(e)),
        },
    }
}

/// The attributes of `eid` from the rows of the query `sql` for its
/// attributes.
///
/// Fails where a row is not two texts, and where a key repeats an earlier
/// one.
pub fn attributes_from_values(eid: &EntityIdVer, sql: &str, rows: Vec<Vec<SqlValue>>) -> (r:
    Result<Vec<(String, String)>, ContainerSqliteError>)
    ensures
        match decoded_attributes(rows.deep_view()) {
            None => r matches Err(ContainerSqliteError::UnexpectedRow { sql: s }) && s@ == sql@,
            Some(attributes) => match attributes_result(*eid, attributes) {
                Ok(attributes) => r matches Ok(found) && found.deep_view() == attributes,
                Err(e) => r matches Err(found) && found.says(e),
            },
        },
{
    match attributes_of_rows(rows) {
        None => Err(ContainerSqliteError::UnexpectedRow { sql: sql.to_owned() }),
        Some(attributes) => match attributes_from_rows(eid, attributes) {
            Ok(attributes) => Ok(attributes),
            Err(e) => Err(ContainerSqliteError::from_data_error(e)),
        },
    }
}

/// The payload row of the record `eid` from the rows of the query `sql` for
/// its payload.
///
/// Fails where a row is not one blob or null, and where there is more than
/// one row.
pub fn payload_from_values(eid: &EntityIdVer, sql: &str, rows: Vec<Vec<SqlValue>>) -> (r: Result<
    Option<Option<Vec<u8>>>,
    ContainerSqliteError,
>)
    ensures
        match decoded_payloads(rows.deep_view()) {
            None => r matches Err(ContainerSqliteError::UnexpectedRow { sql: s }) && s@ == sql@,
            Some(payloads) => match payload_result(*eid, payloads) {
                Ok(payload) => r matches Ok(found) && found.deep_view() == payload,
                Err(e) => r matches Err(found) && found.says(e),
            },
        },
{
    match payloads_of_rows(rows) {
        None => Err(ContainerSqliteError::UnexpectedRow { sql: sql.to_owned() }),
        Some(payloads) => match payload_from_rows(eid, payloads) {
            Ok(payload) => Ok(payload),
            Err(e) => Err(ContainerSqliteError::from_data_error(e)),
        },
    }
}

/// The references in the rows of the query `sql`. Fails where a row is not
/// three integers.
pub fn keys_from_values(sql: &str, rows: &Vec<Vec<SqlValue>>) -> (r: Result<
    Vec<EntityIdVer>,
    ContainerSqliteError,
>)
    ensures
        match decoded_keys(rows.deep_view()) {
            None => r matches Err(ContainerSqliteError::UnexpectedRow { sql: s }) && s@ == sql@,
            Some(refs) => r matches Ok(found) && found@ == refs,
        },
{
    match keys_of_rows(rows) {
        None => Err(ContainerSqliteError::UnexpectedRow { sql: sql.to_owned() }),
        Some(refs) => {
            assert(refs.deep_view() =~= refs@);
            Ok(refs)
        },
    }
}

/// The endpoints of a link from the rows of the query `sql` for them: those
/// where it starts and those where it ends. Fails where a row is not four
/// integers.
pub fn endpoints_from_values(sql: &str, rows: &Vec<Vec<SqlValue>>) -> (r: Result<
    (Vec<EntityIdVer>, Vec<EntityIdVer>),
    ContainerSqliteError,
>)
    ensures
        match decoded_links(rows.deep_view()) {
            None => r matches Err(ContainerSqliteError::UnexpectedRow { sql: s }) && s@ == sql@,
            Some(links) => r matches Ok(found) && found.0@ == endpoints(links, false) && found.1@
                == endpoints(links, true),
        },
{
    match links_of_rows(rows) {
        None => Err(ContainerSqliteError::UnexpectedRow { sql: sql.to_owned() }),
        Some(links) => {
            assert(links.deep_view() =~= links@);
            Ok(endpoints_from_rows(&links))
        },
    }
}

} // verus!
