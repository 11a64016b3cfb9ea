use mze::container::sqlite::values::{
    attributes_from_values, attributes_of_rows, endpoints_from_values, inserted_one_row,
    keys_from_values,
    keys_of_rows, links_of_rows, payload_from_values, payloads_of_rows, removed_a_row,
    rows_or_error,
    tags_from_values, tags_of_rows,
};
use mze::container::sqlite::{ContainerSqliteError, SqlParam, SqlValue};
use mze::container::DataError;
use mze::{EntityId, EntityIdVer};

fn eid(id: u128, ver: u64) -> EntityIdVer {
    EntityIdVer::new(EntityId::new(id), ver)
}

fn text(s: &str) -> SqlValue {
    SqlValue::Text(s.as_bytes().to_vec())
}

#[test]
fn rows_or_error_gives_the_first_error() {
    assert_eq!(rows_or_error(vec![]).unwrap(), Vec::<Vec<SqlValue>>::new());
    assert_eq!(
        rows_or_error(vec![Ok(vec![SqlValue::Null]), Ok(vec![])]).unwrap(),
        vec![vec![SqlValue::Null], vec![]]
    );
    let rows = vec![
        Ok(vec![SqlValue::Integer(1)]),
        Err(rusqlite::Error::InvalidColumnIndex(7)),
        Err(rusqlite::Error::InvalidQuery),
    ];
    match rows_or_error(rows) {
        Err(ContainerSqliteError::ErrorRetrievingRecordData { err }) => {
            assert_eq!(err, rusqlite::Error::InvalidColumnIndex(7));
        }
        other => panic!("unexpected {:?}", other),
    }
}

#[test]
fn tag_rows_are_one_text_each() {
    assert_eq!(
        tags_of_rows(vec![vec![text("a")], vec![text("ж")], vec![text("")]]),
        Some(vec!["a".to_string(), "ж".to_string(), String::new()])
    );
    assert_eq!(tags_of_rows(vec![]), Some(vec![]));
    assert_eq!(tags_of_rows(vec![vec![text("a")], vec![]]), None);
    assert_eq!(tags_of_rows(vec![vec![text("a"), text("b")]]), None);
    assert_eq!(tags_of_rows(vec![vec![SqlValue::Null]]), None);
    assert_eq!(tags_of_rows(vec![vec![SqlValue::Integer(1)]]), None);
    assert_eq!(tags_of_rows(vec![vec![SqlValue::Real]]), None);
    assert_eq!(tags_of_rows(vec![vec![SqlValue::Blob(b"a".to_vec())]]), None);
    assert_eq!(tags_of_rows(vec![vec![SqlValue::Text(vec![0xff])]]), None);
}

#[test]
fn tags_from_values_checks_rows_and_tags() {
    let at = eid(1, 2);
    assert_eq!(
        tags_from_values(&at, "sql", vec![vec![text("a")], vec![text("b")]]).unwrap(),
        vec!["a".to_string(), "b".to_string()]
    );
    assert!(matches!(
        tags_from_values(&at, "the sql", vec![vec![SqlValue::Null]]),
        Err(ContainerSqliteError::UnexpectedRow { sql }) if sql == "the sql"
    ));
    assert!(matches!(
        tags_from_values(&at, "sql", vec![vec![text("a")], vec![text("a")]]),
        Err(ContainerSqliteError::DuplicateTagsInContainer { eid, tag }) if eid == at && tag == "a"
    ));
}

#[test]
fn attribute_rows_are_two_texts_each() {
    assert_eq!(
        attributes_of_rows(vec![vec![text("k"), text("v")]]),
        Some(vec![("k".to_string(), "v".to_string())])
    );
    assert_eq!(attributes_of_rows(vec![vec![text("k")]]), None);
    assert_eq!(attributes_of_rows(vec![vec![text("k"), SqlValue::Null]]), None);
    assert_eq!(attributes_of_rows(vec![vec![SqlValue::Integer(1), text("v")]]), None);
    let at = eid(1, 2);
    assert!(matches!(
        attributes_from_values(&at, "sql", vec![vec![text("k"), text("v")], vec![text("k"), text("w")]]),
        Err(ContainerSqliteError::DuplicateAttributesInContainer { eid, key, value })
            if eid == at && key == "k" && value == "w"
    ));
    assert!(matches!(
        attributes_from_values(&at, "sql", vec![vec![text("k")]]),
        Err(ContainerSqliteError::UnexpectedRow { .. })
    ));
    assert_eq!(
        attributes_from_values(&at, "sql", vec![vec![text("k"), text("v")]]).unwrap(),
        vec![("k".to_string(), "v".to_string())]
    );
}

#[test]
fn payload_rows_are_one_blob_or_null_each() {
    assert_eq!(
        payloads_of_rows(vec![vec![SqlValue::Null], vec![SqlValue::Blob(vec![1])]]),
        Some(vec![None, Some(vec![1])])
    );
    assert_eq!(payloads_of_rows(vec![vec![text("a")]]), None);
    assert_eq!(payloads_of_rows(vec![vec![]]), None);
    let at = eid(1, 2);
    assert_eq!(payload_from_values(&at, "sql", vec![]).unwrap(), None);
    assert_eq!(payload_from_values(&at, "sql", vec![vec![SqlValue::Null]]).unwrap(), Some(None));
    assert_eq!(
        payload_from_values(&at, "sql", vec![vec![SqlValue::Blob(vec![])]]).unwrap(),
        Some(Some(vec![]))
    );
    assert!(matches!(
        payload_from_values(&at, "sql", vec![vec![SqlValue::Null], vec![SqlValue::Null]]),
        Err(ContainerSqliteError::TooManyRowsForARecord { eid }) if eid == at
    ));
    assert!(matches!(
        payload_from_values(&at, "sql", vec![vec![SqlValue::Integer(0)]]),
        Err(ContainerSqliteError::UnexpectedRow { .. })
    ));
}

#[test]
fn key_rows_are_three_integers_each() {
    let rows = vec![
        vec![SqlValue::Integer(5), SqlValue::Integer(0), SqlValue::Integer(1)],
        vec![SqlValue::Integer(-1), SqlValue::Integer(-1), SqlValue::Integer(-1)],
        vec![SqlValue::Integer(0), SqlValue::Integer(1), SqlValue::Integer(i64::MIN)],
    ];
    let expected = vec![eid(5, 1), eid(u128::MAX, u64::MAX), eid(1 << 64, 1 << 63)];
    assert_eq!(keys_of_rows(&rows), Some(expected.clone()));
    assert_eq!(keys_from_values("sql", &rows).unwrap(), expected);
    let short = vec![vec![SqlValue::Integer(5), SqlValue::Integer(0)]];
    assert_eq!(keys_of_rows(&short), None);
    assert!(matches!(
        keys_from_values("sql", &short),
        Err(ContainerSqliteError::UnexpectedRow { .. })
    ));
    let wrong = vec![vec![SqlValue::Integer(5), SqlValue::Null, SqlValue::Integer(1)]];
    assert_eq!(keys_of_rows(&wrong), None);
}

#[test]
fn link_rows_are_four_integers_each() {
    let row = |d: i64, id: i64| {
        vec![SqlValue::Integer(d), SqlValue::Integer(id), SqlValue::Integer(0), SqlValue::Integer(1)]
    };
    let rows = vec![row(1, 7), row(0, 8), row(2, 9), row(0, 10)];
    assert_eq!(
        links_of_rows(&rows),
        Some(vec![(true, eid(7, 1)), (false, eid(8, 1)), (true, eid(9, 1)), (false, eid(10, 1))])
    );
    assert_eq!(
        endpoints_from_values("sql", &rows).unwrap(),
        (vec![eid(8, 1), eid(10, 1)], vec![eid(7, 1), eid(9, 1)])
    );
    let wrong = vec![vec![SqlValue::Null, SqlValue::Integer(1), SqlValue::Integer(0), SqlValue::Integer(1)]];
    assert_eq!(links_of_rows(&wrong), None);
    assert!(matches!(
        endpoints_from_values("sql", &wrong),
        Err(ContainerSqliteError::UnexpectedRow { .. })
    ));
    assert_eq!(links_of_rows(&vec![vec![SqlValue::Integer(1); 3]]), None);
}

#[test]
fn data_errors_become_container_errors() {
    let at = eid(1, 1);
    assert!(matches!(
        ContainerSqliteError::from_data_error(DataError::TooManyRows { eid: at }),
        ContainerSqliteError::TooManyRowsForARecord { eid } if eid == at
    ));
    assert!(matches!(
        ContainerSqliteError::from_data_error(DataError::DuplicateTag { eid: at, tag: "t".into() }),
        ContainerSqliteError::DuplicateTagsInContainer { eid, tag } if eid == at && tag == "t"
    ));
    assert!(matches!(
        ContainerSqliteError::from_data_error(DataError::DuplicateAttribute {
            eid: at,
            key: "k".into(),
            value: "v".into()
        }),
        ContainerSqliteError::DuplicateAttributesInContainer { eid, key, value }
            if eid == at && key == "k" && value == "v"
    ));
    assert!(matches!(
        ContainerSqliteError::from_data_error(DataError::IdsExhausted),
        ContainerSqliteError::IdsExhausted
    ));
    assert!(matches!(
        ContainerSqliteError::from_data_error(DataError::VersionsExhausted { id: at.id }),
        ContainerSqliteError::VersionsExhausted { id } if id == at.id
    ));
}

#[test]
fn a_delete_removed_a_row_if_it_changed_one() {
    assert!(!removed_a_row(0));
    assert!(removed_a_row(1));
    assert!(removed_a_row(2));
    assert!(removed_a_row(usize::MAX));
}

#[test]
fn an_insert_has_to_change_one_row() {
    assert!(matches!(inserted_one_row("the sql", 1), Ok(())));
    assert!(matches!(
        inserted_one_row("the sql", 0),
        Err(ContainerSqliteError::FailedToInsert1Entry { sql, nr_inserted: 0 }) if sql == "the sql"
    ));
    assert!(matches!(
        inserted_one_row("the sql", 2),
        Err(ContainerSqliteError::FailedToInsert1Entry { sql, nr_inserted: 2 }) if sql == "the sql"
    ));
}

#[test]
fn parameters_of_rows() {
    use_builders();
}

fn use_builders() {
    let at = eid((2 << 64) | 1, 3);
    let key = vec![SqlParam::Integer(1), SqlParam::Integer(2), SqlParam::Integer(3)];
    let with = |more: Vec<SqlParam>| {
        let mut row = key.clone();
        row.extend(more);
        row
    };
    assert_eq!(
        mze::container::sqlite::values::id_params(&at.id),
        vec![SqlParam::Integer(1), SqlParam::Integer(2)]
    );
    assert_eq!(
        mze::container::sqlite::values::tag_runs(&at, &["a".to_string(), "b".to_string()]),
        vec![
            with(vec![SqlParam::Text("a".to_string())]),
            with(vec![SqlParam::Text("b".to_string())])
        ]
    );
    assert_eq!(
        mze::container::sqlite::values::tag_runs(&at, &[]),
        Vec::<Vec<SqlParam>>::new()
    );
    assert_eq!(
        mze::container::sqlite::values::attribute_runs(&at, &[("k".to_string(), "v".to_string())]),
        vec![with(vec![SqlParam::Text("k".to_string()), SqlParam::Text("v".to_string())])]
    );
    assert_eq!(
        mze::container::sqlite::values::record_params(&at, &None),
        with(vec![SqlParam::Null])
    );
    assert_eq!(
        mze::container::sqlite::values::record_params(&at, &Some(vec![])),
        with(vec![SqlParam::Blob(vec![])])
    );
    assert_eq!(
        mze::container::sqlite::values::link_params(&at, true, &eid(9, 8)),
        with(vec![
            SqlParam::Integer(1),
            SqlParam::Integer(9),
            SqlParam::Integer(0),
            SqlParam::Integer(8)
        ])
    );
    assert_eq!(
        mze::container::sqlite::values::link_runs(&at, &vec![eid(4, 1)], &vec![eid(5, 1), eid(6, 2)]),
        vec![
            with(vec![
                SqlParam::Integer(0),
                SqlParam::Integer(4),
                SqlParam::Integer(0),
                SqlParam::Integer(1)
            ]),
            with(vec![
                SqlParam::Integer(1),
                SqlParam::Integer(5),
                SqlParam::Integer(0),
                SqlParam::Integer(1)
            ]),
            with(vec![
                SqlParam::Integer(1),
                SqlParam::Integer(6),
                SqlParam::Integer(0),
                SqlParam::Integer(2)
            ]),
        ]
    );
}
