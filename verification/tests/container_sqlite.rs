use std::collections::{HashMap, HashSet};

use mze::container::sqlite::{ContainerSqlite, ContainerSqliteError};
use mze::helpers;
use mze::{
    Container, ContainerTransaction, EntityIdVer, Link, Record, SearchQuery, SearchResult,
    TagsAndAttributes,
};

fn tags2hash_set(tags: &[String]) -> HashSet<&String> {
    HashSet::<&String>::from_iter(tags.iter())
}

fn attributes2hash_map(attributes: &[(String, String)]) -> HashMap<&String, &String> {
    attributes.iter().map(|(s1, s2)| (s1, s2)).collect()
}

fn strings(items: &[&str]) -> Vec<String> {
    items.iter().map(|s| s.to_string()).collect()
}

fn pairs(items: &[(&str, &str)]) -> Vec<(String, String)> {
    items.iter().map(|(k, v)| (k.to_string(), v.to_string())).collect()
}

fn found_tags(found: &[SearchResult]) -> HashSet<String> {
    found
        .iter()
        .map(|r| match r {
            SearchResult::Tag(t) => t.tag.clone(),
            other => panic!("not a tag: {:?}", other),
        })
        .collect()
}

fn found_attributes(found: &[SearchResult]) -> HashSet<(String, String)> {
    found
        .iter()
        .map(|r| match r {
            SearchResult::Attribute(a) => (a.key.clone(), a.value.clone()),
            other => panic!("not an attribute: {:?}", other),
        })
        .collect()
}

#[test]
fn smoke_tags() {
    let mut container = ContainerSqlite::new("").unwrap();
    container.create().unwrap();
    let mut test_rng = helpers::TestRng::new(1);
    let eid = EntityIdVer::new(helpers::random_entity_id(&mut test_rng), 1);
    let mut tx = container.begin_transaction().unwrap();

    let tags1 = tx.tags_get(&eid).unwrap();
    assert!(tags1.is_empty());

    let tags = helpers::random_tags(&mut test_rng);
    tx.tags_put(&eid, &tags).unwrap();

    let tags1 = tx.tags_get(&eid).unwrap();
    assert_eq!(tags2hash_set(&tags1), tags2hash_set(&tags));

    tx.tags_del(&eid).unwrap();

    let tags1 = tx.tags_get(&eid).unwrap();
    assert!(tags1.is_empty());

    tx.commit().unwrap();
    container.destroy().unwrap();
}

#[test]
fn smoke_attributes() {
    let mut container = ContainerSqlite::new("").unwrap();
    container.create().unwrap();
    let mut test_rng = helpers::TestRng::new(1);
    let eid = EntityIdVer::new(helpers::random_entity_id(&mut test_rng), 1);
    let mut tx = container.begin_transaction().unwrap();

    let attributes1 = tx.attributes_get(&eid).unwrap();
    assert!(attributes1.is_empty());

    let attributes = helpers::random_attrs(&mut test_rng);
    tx.attributes_put(&eid, &attributes).unwrap();

    let attributes1 = tx.attributes_get(&eid).unwrap();
    assert_eq!(attributes2hash_map(&attributes1), attributes2hash_map(&attributes),);

    tx.attributes_del(&eid).unwrap();

    let attributes1 = tx.attributes_get(&eid).unwrap();
    assert!(attributes1.is_empty());

    tx.commit().unwrap();
    container.destroy().unwrap();
}

#[test]
fn smoke_record() {
    let mut container = ContainerSqlite::new("").unwrap();
    container.create().unwrap();
    let mut test_rng = helpers::TestRng::new(1);
    let eid = helpers::random_entity_id(&mut test_rng);
    let mut tx = container.begin_transaction().unwrap();

    let all_ids = tx.record_get_all_ids().unwrap();
    assert!(all_ids.is_empty());

    let record = helpers::random_record(&mut test_rng);
    let eid1 = tx.record_put(&Some(eid), &record).unwrap();
    assert_eq!(eid1.id, eid);
    assert_eq!(eid1.ver, 1);

    let record1 = tx.record_get(&eid1).unwrap().unwrap();
    assert_eq!(tags2hash_set(&record1.ta.tags), tags2hash_set(&record.ta.tags));
    assert_eq!(
        attributes2hash_map(&record1.ta.attributes),
        attributes2hash_map(&record.ta.attributes)
    );
    assert_eq!(record1.data, record.data);

    let all_ids = tx.record_get_all_ids().unwrap();
    assert_eq!(all_ids.len(), 1);
    assert_eq!(all_ids[0], eid1);

    let deleted = tx.record_del(&eid1).unwrap();
    assert!(deleted);

    let record1 = tx.record_get(&eid1).unwrap();
    assert!(record1.is_none());

    let all_ids = tx.record_get_all_ids().unwrap();
    assert!(all_ids.is_empty());

    tx.commit().unwrap();
    container.destroy().unwrap();
}

#[test]
fn smoke_link() {
    let mut container = ContainerSqlite::new("").unwrap();
    container.create().unwrap();
    let mut test_rng = helpers::TestRng::new(1);
    let mut tx = container.begin_transaction().unwrap();

    let record_eid1 = helpers::random_entity_id(&mut test_rng);
    let record1 = helpers::random_record(&mut test_rng);
    let record_eid1 = tx.record_put(&Some(record_eid1), &record1).unwrap();
    let record_eid2 = helpers::random_entity_id(&mut test_rng);
    let record2 = helpers::random_record(&mut test_rng);
    let record_eid2 = tx.record_put(&Some(record_eid2), &record2).unwrap();

    let eid = helpers::random_entity_id(&mut test_rng);

    let all_ids = tx.link_get_all_ids().unwrap();
    assert!(all_ids.is_empty());

    let link = Link {
        ta: helpers::random_tags_and_attrs(&mut test_rng),
        from: vec![record_eid1],
        to: vec![record_eid2],
    };

    let eid1 = tx.link_put(&Some(eid), &link).unwrap();
    assert_eq!(eid1.id, eid);
    assert_eq!(eid1.ver, 1);

    let link1 = tx.link_get(&eid1).unwrap().unwrap();
    assert_eq!(tags2hash_set(&link1.ta.tags), tags2hash_set(&link.ta.tags));
    assert_eq!(
        attributes2hash_map(&link1.ta.attributes),
        attributes2hash_map(&link.ta.attributes)
    );
    assert_eq!(link1.from, link.from);
    assert_eq!(link1.to, link.to);

    let all_ids = tx.link_get_all_ids().unwrap();
    assert_eq!(all_ids.len(), 1, "all_ids={:?}", all_ids);
    assert_eq!(all_ids[0], eid1);

    let deleted = tx.link_del(&eid1).unwrap();
    assert!(deleted);
    let all_ids = tx.link_get_all_ids().unwrap();
    assert!(all_ids.is_empty());

    let deleted = tx.record_del(&record_eid1).unwrap();
    assert!(deleted);
    let deleted = tx.record_del(&record_eid2).unwrap();
    assert!(deleted);
    let record_all_ids = tx.record_get_all_ids().unwrap();
    assert!(record_all_ids.is_empty());

    tx.commit().unwrap();
    container.destroy().unwrap();
}

fn record(tags: &[&str], attributes: &[(&str, &str)], data: Option<&[u8]>) -> Record {
    Record {
        ta: TagsAndAttributes { tags: strings(tags), attributes: pairs(attributes) },
        data: data.map(|d| d.to_vec()),
    }
}

#[test]
fn sqlite_create_twice_fails() {
    let mut container = ContainerSqlite::new("").unwrap();
    container.create().unwrap();
    assert!(matches!(
        container.create(),
        Err(ContainerSqliteError::FailedToCreateTable { .. })
    ));
}

#[test]
fn sqlite_destroy_without_tables_fails() {
    let mut container = ContainerSqlite::new("").unwrap();
    assert!(matches!(
        container.destroy(),
        Err(ContainerSqliteError::FailedToCreateTable { .. })
    ));
}

#[test]
fn sqlite_read_without_tables_fails() {
    let mut container = ContainerSqlite::new("").unwrap();
    let tx = container.begin_transaction().unwrap();
    let eid = EntityIdVer::new(mze::EntityId::new(1), 1);
    assert!(matches!(
        tx.tags_get(&eid),
        Err(ContainerSqliteError::SqliteConnPrepareFailed { .. })
    ));
}

#[test]
fn sqlite_duplicate_tag_is_an_integrity_error() {
    let mut container = ContainerSqlite::new("").unwrap();
    container.create().unwrap();
    let mut tx = container.begin_transaction().unwrap();
    let eid = EntityIdVer::new(mze::EntityId::new(7), 1);
    tx.tags_put(&eid, &strings(&["a", "b"])).unwrap();
    tx.tags_put(&eid, &strings(&["a"])).unwrap();
    match tx.tags_get(&eid) {
        Err(ContainerSqliteError::DuplicateTagsInContainer { eid: at, tag }) => {
            assert_eq!(at, eid);
            assert_eq!(tag, "a");
        }
        other => panic!("expected a duplicate tag, got {:?}", other),
    }
}

#[test]
fn sqlite_duplicate_key_is_an_integrity_error() {
    let mut container = ContainerSqlite::new("").unwrap();
    container.create().unwrap();
    let mut tx = container.begin_transaction().unwrap();
    let eid = EntityIdVer::new(mze::EntityId::new(7), 1);
    tx.attributes_put(&eid, &pairs(&[("k", "v"), ("k", "w")])).unwrap();
    match tx.attributes_get(&eid) {
        Err(ContainerSqliteError::DuplicateAttributesInContainer { eid: at, key, value }) => {
            assert_eq!(at, eid);
            assert_eq!(key, "k");
            assert_eq!(value, "w");
        }
        other => panic!("expected a duplicate key, got {:?}", other),
    }
}

#[test]
fn sqlite_put_without_id_allocates_ids() {
    let mut container = ContainerSqlite::new("").unwrap();
    container.create().unwrap();
    let mut tx = container.begin_transaction().unwrap();
    let r = record(&["t"], &[("k", "v")], Some(b"hello"));
    let first = tx.record_put(&None, &r).unwrap();
    assert_eq!(first, EntityIdVer::new(mze::EntityId::new(10000), 1));
    let link = Link { ta: TagsAndAttributes::default(), from: vec![first], to: vec![first] };
    let second = tx.link_put(&None, &link).unwrap();
    assert_eq!(second, EntityIdVer::new(mze::EntityId::new(10001), 1));
    let third = tx.record_put(&None, &r).unwrap();
    assert_eq!(third, EntityIdVer::new(mze::EntityId::new(10002), 1));
    assert_eq!(tx.record_get(&first).unwrap().unwrap(), r);
    assert_eq!(tx.link_get(&second).unwrap().unwrap(), link);
}

#[test]
fn sqlite_versions_go_up_by_one() {
    let mut container = ContainerSqlite::new("").unwrap();
    container.create().unwrap();
    let mut tx = container.begin_transaction().unwrap();
    let id = mze::EntityId::new(u128::MAX - 5);
    assert_eq!(tx.record_get_ver_latest(&id).unwrap(), None);
    let r1 = record(&["one"], &[], None);
    let r2 = record(&["two"], &[], Some(b""));
    let r3 = record(&["three"], &[], Some(b"3"));
    assert_eq!(tx.record_put(&Some(id), &r1).unwrap(), EntityIdVer::new(id, 1));
    assert_eq!(tx.record_put(&Some(id), &r2).unwrap(), EntityIdVer::new(id, 2));
    assert_eq!(tx.record_put(&Some(id), &r3).unwrap(), EntityIdVer::new(id, 3));
    assert_eq!(tx.record_get_ver_latest(&id).unwrap(), Some(3));
    assert_eq!(tx.record_get(&EntityIdVer::new(id, 1)).unwrap().unwrap(), r1);
    assert_eq!(tx.record_get(&EntityIdVer::new(id, 2)).unwrap().unwrap(), r2);
    assert_eq!(tx.record_get(&EntityIdVer::latest(id)).unwrap().unwrap(), r3);
    assert_eq!(tx.record_get_all_ids().unwrap(), vec![EntityIdVer::new(id, 3)]);
    assert!(tx.record_del(&EntityIdVer::new(id, 3)).unwrap());
    assert!(!tx.record_del(&EntityIdVer::new(id, 3)).unwrap());
    assert_eq!(tx.record_get_ver_latest(&id).unwrap(), Some(2));
    assert_eq!(tx.record_get(&EntityIdVer::latest(id)).unwrap().unwrap(), r2);
}

#[test]
fn sqlite_no_payload_differs_from_empty_payload() {
    let mut container = ContainerSqlite::new("").unwrap();
    container.create().unwrap();
    let mut tx = container.begin_transaction().unwrap();
    let none = tx.record_put(&None, &record(&[], &[], None)).unwrap();
    let empty = tx.record_put(&None, &record(&[], &[], Some(b""))).unwrap();
    assert_eq!(tx.record_get(&none).unwrap().unwrap().data, None);
    assert_eq!(tx.record_get(&empty).unwrap().unwrap().data, Some(vec![]));
}

#[test]
fn sqlite_rollback_drops_what_was_put() {
    let mut container = ContainerSqlite::new("").unwrap();
    container.create().unwrap();
    let mut tx = container.begin_transaction().unwrap();
    let kept = tx.record_put(&None, &record(&["kept"], &[], None)).unwrap();
    tx.commit().unwrap();
    let mut tx = container.begin_transaction().unwrap();
    let dropped = tx.record_put(&None, &record(&["dropped"], &[], None)).unwrap();
    tx.rollback().unwrap();
    let tx = container.begin_transaction().unwrap();
    assert!(tx.record_get(&kept).unwrap().is_some());
    assert!(tx.record_get(&dropped).unwrap().is_none());
}

#[test]
fn sqlite_search() {
    let mut container = ContainerSqlite::new("").unwrap();
    container.create().unwrap();
    let mut tx = container.begin_transaction().unwrap();
    let a = tx
        .record_put(&None, &record(&["a", "b"], &[("colour", "red")], Some(b"hello world")))
        .unwrap();
    let b = tx
        .record_put(&None, &record(&["foo", "b"], &[("size", "big")], Some(b"goodbye")))
        .unwrap();
    let l = tx
        .link_put(
            &None,
            &Link {
                ta: TagsAndAttributes { tags: strings(&["footnote"]), attributes: pairs(&[]) },
                from: vec![a],
                to: vec![b],
            },
        )
        .unwrap();

    let found = tx.search(&SearchQuery::new("#")).unwrap();
    assert_eq!(found.len(), 4);
    assert_eq!(
        found_tags(&found),
        strings(&["a", "b", "foo", "footnote"]).into_iter().collect::<HashSet<_>>()
    );

    let found = tx.search(&SearchQuery::new("# #foo")).unwrap();
    assert_eq!(
        found_tags(&found),
        strings(&["foo", "footnote"]).into_iter().collect::<HashSet<_>>()
    );

    let found = tx.search(&SearchQuery::new("#=")).unwrap();
    assert_eq!(
        found_attributes(&found),
        pairs(&[("colour", "red"), ("size", "big")]).into_iter().collect::<HashSet<_>>()
    );

    let found = tx.search(&SearchQuery::new("#= #col=re")).unwrap();
    assert_eq!(
        found_attributes(&found),
        pairs(&[("colour", "red")]).into_iter().collect::<HashSet<_>>()
    );

    let found = tx.search(&SearchQuery::new("hello #b")).unwrap();
    assert_eq!(found, vec![SearchResult::Record(mze::SearchResultRecord { record_id: a })]);

    let found = tx.search(&SearchQuery::new("#foo")).unwrap();
    assert_eq!(
        found,
        vec![
            SearchResult::Record(mze::SearchResultRecord { record_id: b }),
            SearchResult::Link(mze::SearchResultLink { link_id: l }),
        ]
    );

    let found = tx.search(&SearchQuery::new("")).unwrap();
    assert!(found.is_empty());
}

#[test]
fn container_new_opens_an_sqlite_container() {
    let mut container = mze::container::new("sqlite", "").unwrap();
    container.create().unwrap();
    let mut tx = container.begin_transaction().unwrap();
    let at = tx.record_put(&None, &record(&["t"], &[], Some(b"x"))).unwrap();
    assert_eq!(tx.record_get(&at).unwrap().unwrap().data, Some(b"x".to_vec()));
    tx.commit().unwrap();
    container.destroy().unwrap();
}

#[test]
fn sqlite_cannot_open_a_file_in_a_missing_directory() {
    match ContainerSqlite::new("/nonexistent-directory/of/nowhere/store.sqlite") {
        Err(ContainerSqliteError::CantOpenSqliteConnection { uri, .. }) => {
            assert_eq!(uri, "/nonexistent-directory/of/nowhere/store.sqlite");
        }
        Err(other) => panic!("unexpected error {:?}", other),
        Ok(_) => panic!("opened a database in a missing directory"),
    }
}

#[test]
fn sqlite_ids_can_be_exhausted() {
    let mut container = ContainerSqlite::new("").unwrap();
    container.create().unwrap();
    let mut tx = container.begin_transaction().unwrap();
    let r = record(&["t"], &[], None);
    let top = tx.record_put(&Some(mze::EntityId::new(u128::MAX)), &r).unwrap();
    assert_eq!(top, EntityIdVer::new(mze::EntityId::new(u128::MAX), 1));
    assert!(matches!(tx.record_put(&None, &r), Err(ContainerSqliteError::IdsExhausted)));
    assert!(matches!(
        tx.link_put(&None, &Link { ta: TagsAndAttributes::default(), from: vec![top], to: vec![] }),
        Err(ContainerSqliteError::IdsExhausted)
    ));
    assert_eq!(tx.record_get(&top).unwrap().unwrap(), r);
}

#[test]
fn sqlite_tags_of_one_version_are_not_those_of_another() {
    let mut container = ContainerSqlite::new("").unwrap();
    container.create().unwrap();
    let mut tx = container.begin_transaction().unwrap();
    let id = mze::EntityId::new((7 << 64) | 7);
    tx.tags_put(&EntityIdVer::new(id, 1), &strings(&["one"])).unwrap();
    tx.tags_put(&EntityIdVer::new(id, 2), &strings(&["two"])).unwrap();
    tx.tags_put(&EntityIdVer::new(mze::EntityId::new(7), 1), &strings(&["low"])).unwrap();
    tx.tags_put(&EntityIdVer::new(mze::EntityId::new(7 << 64), 1), &strings(&["high"])).unwrap();
    assert_eq!(tx.tags_get(&EntityIdVer::new(id, 1)).unwrap(), strings(&["one"]));
    assert_eq!(tx.tags_get(&EntityIdVer::new(id, 2)).unwrap(), strings(&["two"]));
    assert_eq!(tx.tags_get(&EntityIdVer::new(id, 3)).unwrap(), strings(&[]));
    tx.tags_del(&EntityIdVer::new(id, 1)).unwrap();
    assert_eq!(tx.tags_get(&EntityIdVer::new(id, 1)).unwrap(), strings(&[]));
    assert_eq!(tx.tags_get(&EntityIdVer::new(id, 2)).unwrap(), strings(&["two"]));
    assert_eq!(tx.tags_get(&EntityIdVer::new(mze::EntityId::new(7), 1)).unwrap(), strings(&["low"]));
}

#[test]
fn sqlite_text_and_payload_survive_as_they_are() {
    let mut container = ContainerSqlite::new("").unwrap();
    container.create().unwrap();
    let mut tx = container.begin_transaction().unwrap();
    let bytes: Vec<u8> = (0..=255u8).collect();
    let r = record(&["имя", "☃", "a b", ""], &[("ключ", "значение"), ("", "")], Some(&bytes));
    let at = tx.record_put(&None, &r).unwrap();
    assert_eq!(tx.record_get(&at).unwrap().unwrap(), r);
}

#[test]
fn sqlite_empty_query_finds_nothing_whatever_the_database_holds() {
    let mut container = ContainerSqlite::new("").unwrap();
    let tx = container.begin_transaction().unwrap();
    assert_eq!(tx.search(&SearchQuery::new("")).unwrap(), vec![]);
    assert_eq!(tx.search(&SearchQuery::new(" \t ")).unwrap(), vec![]);
    assert!(tx.search(&SearchQuery::new("x")).is_err());
}

#[test]
fn sqlite_errors_name_the_statement() {
    use_statements();
}

fn use_statements() {
    let mut container = ContainerSqlite::new("").unwrap();
    assert!(matches!(
        container.destroy(),
        Err(ContainerSqliteError::FailedToCreateTable { sql }) if sql == "DROP TABLE links;"
    ));
    container.create().unwrap();
    assert!(matches!(
        container.create(),
        Err(ContainerSqliteError::FailedToCreateTable { sql })
            if sql == mze::container::sqlite::SQL_CREATE_RECORDS
    ));
    container.destroy().unwrap();
    let mut tx = container.begin_transaction().unwrap();
    let at = EntityIdVer::new(mze::EntityId::new(1), 1);
    assert!(matches!(
        tx.tags_get(&at),
        Err(ContainerSqliteError::SqliteConnPrepareFailed { sql, .. })
            if sql == mze::container::sqlite::SQL_TAGS_GET
    ));
    assert!(matches!(
        tx.attributes_get(&at),
        Err(ContainerSqliteError::SqliteConnPrepareFailed { sql, .. })
            if sql == mze::container::sqlite::SQL_ATTRIBUTES_GET
    ));
    assert!(matches!(
        tx.tags_put(&at, &[]),
        Err(ContainerSqliteError::SqliteConnPrepareFailed { sql, .. })
            if sql == mze::container::sqlite::SQL_TAGS_PUT
    ));
    assert!(matches!(
        tx.record_del(&at),
        Err(ContainerSqliteError::SqliteConnPrepareFailed { sql, .. })
            if sql == mze::container::sqlite::SQL_TAGS_DEL
    ));
    assert!(matches!(
        tx.record_get(&at),
        Err(ContainerSqliteError::SqliteConnPrepareFailed { sql, .. })
            if sql == mze::container::sqlite::SQL_RECORD_GET
    ));
    assert!(matches!(
        tx.record_get(&EntityIdVer::latest(at.id)),
        Err(ContainerSqliteError::SqliteConnPrepareFailed { sql, .. })
            if sql == mze::container::sqlite::SQL_RECORD_VERSIONS
    ));
    assert!(matches!(
        tx.record_put(&None, &record(&[], &[], None)),
        Err(ContainerSqliteError::SqliteConnPrepareFailed { sql, .. })
            if sql == mze::container::sqlite::SQL_RECORD_ALL
    ));
    assert!(matches!(
        tx.record_put(&Some(at.id), &record(&[], &[], None)),
        Err(ContainerSqliteError::SqliteConnPrepareFailed { sql, .. })
            if sql == mze::container::sqlite::SQL_RECORD_VERSIONS
    ));
    assert!(matches!(
        tx.search(&SearchQuery::new("#")),
        Err(ContainerSqliteError::SqliteConnPrepareFailed { sql, .. })
            if sql == mze::container::sqlite::SQL_TAGS_ALL
    ));
}

#[test]
fn sqlite_search_names_each_entity_once() {
    let mut container = ContainerSqlite::new("").unwrap();
    container.create().unwrap();
    let mut tx = container.begin_transaction().unwrap();
    let id = mze::EntityId::new(5);
    tx.record_put(&Some(id), &record(&["t"], &[], None)).unwrap();
    let second = tx.record_put(&Some(id), &record(&["t"], &[], None)).unwrap();
    let found = tx.search(&SearchQuery::new("#t")).unwrap();
    assert_eq!(found, vec![SearchResult::Record(mze::SearchResultRecord { record_id: second })]);
}
