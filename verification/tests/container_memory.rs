use std::collections::{HashMap, HashSet};

use mze::container::memory::{ContainerMemory, ContainerMemoryError};
use mze::container::DataError;
use mze::helpers;
use mze::{
    Container, ContainerTransaction, EntityId, EntityIdVer, Link, Record, SearchQuery,
    SearchResult, SearchResultLink, SearchResultRecord, TagsAndAttributes,
};

fn strings(items: &[&str]) -> Vec<String> {
    items.iter().map(|s| s.to_string()).collect()
}

fn pairs(items: &[(&str, &str)]) -> Vec<(String, String)> {
    items.iter().map(|(k, v)| (k.to_string(), v.to_string())).collect()
}

fn record(tags: &[&str], attributes: &[(&str, &str)], data: Option<&[u8]>) -> Record {
    Record {
        ta: TagsAndAttributes { tags: strings(tags), attributes: pairs(attributes) },
        data: data.map(|d| d.to_vec()),
    }
}

fn created() -> ContainerMemory {
    let mut container = ContainerMemory::new("").unwrap();
    container.create().unwrap();
    container
}

fn eid(id: u128, ver: u64) -> EntityIdVer {
    EntityIdVer::new(EntityId::new(id), ver)
}

fn found_tags(found: &[SearchResult]) -> Vec<String> {
    found
        .iter()
        .map(|r| match r {
            SearchResult::Tag(t) => t.tag.clone(),
            other => panic!("not a tag: {:?}", other),
        })
        .collect()
}

fn found_attributes(found: &[SearchResult]) -> Vec<(String, String)> {
    found
        .iter()
        .map(|r| match r {
            SearchResult::Attribute(a) => (a.key.clone(), a.value.clone()),
            other => panic!("not an attribute: {:?}", other),
        })
        .collect()
}

#[test]
fn memory_create_and_destroy() {
    let mut container = ContainerMemory::new("memory").unwrap();
    assert_eq!(container.destroy(), Err(ContainerMemoryError::NoTables));
    assert!(matches!(container.begin_transaction(), Err(ContainerMemoryError::NoTables)));
    assert_eq!(container.create(), Ok(()));
    assert_eq!(container.create(), Err(ContainerMemoryError::TablesExist));
    assert!(container.begin_transaction().is_ok());
    assert_eq!(container.destroy(), Ok(()));
    assert_eq!(container.destroy(), Err(ContainerMemoryError::NoTables));
    assert_eq!(container.create(), Ok(()));
}

#[test]
fn memory_tags_put_get_del() {
    let mut container = created();
    let mut tx = container.begin_transaction().unwrap();
    let at = eid(5, 1);
    assert_eq!(tx.tags_get(&at), Ok(vec![]));
    tx.tags_put(&at, &strings(&["b", "a", "c"])).unwrap();
    assert_eq!(tx.tags_get(&at), Ok(strings(&["b", "a", "c"])));
    assert_eq!(tx.tags_get(&eid(5, 2)), Ok(vec![]));
    assert_eq!(tx.tags_get(&eid(6, 1)), Ok(vec![]));
    tx.tags_del(&at).unwrap();
    assert_eq!(tx.tags_get(&at), Ok(vec![]));
}

#[test]
fn memory_tags_are_a_set_whatever_the_order() {
    let mut container = created();
    let mut tx = container.begin_transaction().unwrap();
    tx.tags_put(&eid(1, 1), &strings(&["x", "y", "z"])).unwrap();
    tx.tags_put(&eid(2, 1), &strings(&["z", "x", "y"])).unwrap();
    let one: HashSet<String> = tx.tags_get(&eid(1, 1)).unwrap().into_iter().collect();
    let two: HashSet<String> = tx.tags_get(&eid(2, 1)).unwrap().into_iter().collect();
    assert_eq!(one, two);
    assert_eq!(one.len(), 3);
}

#[test]
fn memory_attributes_put_get_del() {
    let mut container = created();
    let mut tx = container.begin_transaction().unwrap();
    let at = eid(5, 1);
    assert_eq!(tx.attributes_get(&at), Ok(vec![]));
    tx.attributes_put(&at, &pairs(&[("k", "v"), ("l", "v")])).unwrap();
    let got: HashMap<String, String> = tx.attributes_get(&at).unwrap().into_iter().collect();
    let put: HashMap<String, String> = pairs(&[("l", "v"), ("k", "v")]).into_iter().collect();
    assert_eq!(got, put);
    tx.attributes_del(&at).unwrap();
    assert_eq!(tx.attributes_get(&at), Ok(vec![]));
}

#[test]
fn memory_duplicate_tag_is_an_integrity_error() {
    let mut container = created();
    let mut tx = container.begin_transaction().unwrap();
    let at = eid(5, 1);
    tx.tags_put(&at, &strings(&["a", "b"])).unwrap();
    tx.tags_put(&at, &strings(&["c", "b", "a"])).unwrap();
    assert_eq!(tx.tags_get(&at), Err(DataError::DuplicateTag { eid: at, tag: "b".to_string() }));
    assert_eq!(
        tx.tags_and_attributes_get(&at),
        Err(DataError::DuplicateTag { eid: at, tag: "b".to_string() })
    );
}

#[test]
fn memory_duplicate_key_is_an_integrity_error() {
    let mut container = created();
    let mut tx = container.begin_transaction().unwrap();
    let at = eid(5, 1);
    tx.attributes_put(&at, &pairs(&[("k", "v"), ("l", "w"), ("k", "x")])).unwrap();
    assert_eq!(
        tx.attributes_get(&at),
        Err(DataError::DuplicateAttribute {
            eid: at,
            key: "k".to_string(),
            value: "x".to_string()
        })
    );
}

#[test]
fn memory_tags_and_attributes() {
    let mut container = created();
    let mut tx = container.begin_transaction().unwrap();
    let at = eid(9, 1);
    let ta = TagsAndAttributes { tags: strings(&["t"]), attributes: pairs(&[("k", "v")]) };
    tx.tags_and_attributes_put(&at, &ta).unwrap();
    assert_eq!(tx.tags_and_attributes_get(&at), Ok(ta));
    tx.tags_and_attributes_del(&at).unwrap();
    assert_eq!(tx.tags_and_attributes_get(&at), Ok(TagsAndAttributes::default()));
}

#[test]
fn memory_record_put_without_id_then_get() {
    let mut container = created();
    let mut tx = container.begin_transaction().unwrap();
    let r = record(&["t", "u"], &[("k", "v")], Some(b"payload"));
    let at = tx.record_put(&None, &r).unwrap();
    assert_eq!(at, eid(10000, 1));
    assert_eq!(tx.record_get(&at), Ok(Some(r.clone())));
    assert_eq!(tx.record_get(&EntityIdVer::latest(at.id)), Ok(Some(r)));
    assert_eq!(tx.record_get_all_ids(), Ok(vec![at]));
}

#[test]
fn memory_ids_are_shared_by_records_and_links() {
    let mut container = created();
    let mut tx = container.begin_transaction().unwrap();
    let r = record(&[], &[], None);
    let first = tx.record_put(&None, &r).unwrap();
    let link = Link { ta: TagsAndAttributes::default(), from: vec![first], to: vec![] };
    let second = tx.link_put(&None, &link).unwrap();
    let third = tx.record_put(&None, &r).unwrap();
    let fourth = tx.record_put(&Some(EntityId::new(77777)), &r).unwrap();
    let fifth = tx.link_put(&None, &link).unwrap();
    assert_eq!(first, eid(10000, 1));
    assert_eq!(second, eid(10001, 1));
    assert_eq!(third, eid(10002, 1));
    assert_eq!(fourth, eid(77777, 1));
    assert_eq!(fifth, eid(77778, 1));
}

#[test]
fn memory_ids_can_be_exhausted() {
    let mut container = created();
    let mut tx = container.begin_transaction().unwrap();
    let r = record(&["t"], &[], None);
    assert_eq!(tx.record_put(&Some(EntityId::new(u128::MAX)), &r), Ok(eid(u128::MAX, 1)));
    assert_eq!(tx.record_put(&None, &r), Err(DataError::IdsExhausted));
    assert_eq!(tx.record_get_all_ids(), Ok(vec![eid(u128::MAX, 1)]));
    assert_eq!(tx.tags_get(&eid(u128::MAX, 1)), Ok(strings(&["t"])));
}

#[test]
fn memory_record_del() {
    let mut container = created();
    let mut tx = container.begin_transaction().unwrap();
    let r = record(&["t"], &[("k", "v")], Some(b""));
    let at = tx.record_put(&None, &r).unwrap();
    assert_eq!(tx.record_del(&at), Ok(true));
    assert_eq!(tx.record_del(&at), Ok(false));
    assert_eq!(tx.record_get(&at), Ok(None));
    assert_eq!(tx.record_get(&EntityIdVer::latest(at.id)), Ok(None));
    assert_eq!(tx.record_get_all_ids(), Ok(vec![]));
    assert_eq!(tx.tags_get(&at), Ok(vec![]));
    assert_eq!(tx.attributes_get(&at), Ok(vec![]));
}

#[test]
fn memory_no_payload_differs_from_empty_payload() {
    let mut container = created();
    let mut tx = container.begin_transaction().unwrap();
    let none = tx.record_put(&None, &record(&[], &[], None)).unwrap();
    let empty = tx.record_put(&None, &record(&[], &[], Some(b""))).unwrap();
    assert_eq!(tx.record_get(&none).unwrap().unwrap().data, None);
    assert_eq!(tx.record_get(&empty).unwrap().unwrap().data, Some(vec![]));
}

#[test]
fn memory_link_round_trip() {
    let mut container = created();
    let mut tx = container.begin_transaction().unwrap();
    let a = tx.record_put(&None, &record(&["a"], &[], None)).unwrap();
    let b = tx.record_put(&None, &record(&["b"], &[], None)).unwrap();
    let link = Link {
        ta: TagsAndAttributes { tags: strings(&["l"]), attributes: pairs(&[("kind", "ref")]) },
        from: vec![a],
        to: vec![b],
    };
    assert_eq!(tx.link_get_all_ids(), Ok(vec![]));
    let at = tx.link_put(&None, &link).unwrap();
    assert_eq!(tx.link_get(&at), Ok(Some(link.clone())));
    assert_eq!(tx.link_get(&EntityIdVer::latest(at.id)), Ok(Some(link)));
    assert_eq!(tx.link_get_all_ids(), Ok(vec![at]));
    assert_eq!(tx.link_del(&at), Ok(true));
    assert_eq!(tx.link_del(&at), Ok(false));
    assert_eq!(tx.link_get(&at), Ok(None));
    assert_eq!(tx.link_get_all_ids(), Ok(vec![]));
    assert_eq!(tx.record_del(&a), Ok(true));
    assert_eq!(tx.record_del(&b), Ok(true));
    assert_eq!(tx.record_get_all_ids(), Ok(vec![]));
}

#[test]
fn memory_link_direction_matters() {
    let mut container = created();
    let mut tx = container.begin_transaction().unwrap();
    let (a, b, c) = (eid(1, 1), eid(2, 1), eid(3, 2));
    let link = Link { ta: TagsAndAttributes::default(), from: vec![a, c], to: vec![b, a] };
    let at = tx.link_put(&None, &link).unwrap();
    let got = tx.link_get(&at).unwrap().unwrap();
    assert_eq!(got.from, vec![a, c]);
    assert_eq!(got.to, vec![b, a]);
    let other = tx.link_put(&None, &Link { ta: TagsAndAttributes::default(), from: vec![b, a], to: vec![a, c] }).unwrap();
    assert_ne!(tx.link_get(&other).unwrap().unwrap(), got);
}

#[test]
fn memory_link_without_endpoints_is_not_stored() {
    let mut container = created();
    let mut tx = container.begin_transaction().unwrap();
    let link = Link { ta: TagsAndAttributes::default(), from: vec![], to: vec![] };
    let at = tx.link_put(&None, &link).unwrap();
    assert_eq!(tx.link_get(&at), Ok(None));
}

#[test]
fn memory_versions_go_up_by_one() {
    let mut container = created();
    let mut tx = container.begin_transaction().unwrap();
    let id = EntityId::new(42);
    assert_eq!(tx.record_get_ver_latest(&id), Ok(None));
    let r1 = record(&["one"], &[], None);
    let r2 = record(&["two"], &[("k", "2")], Some(b"22"));
    let r3 = record(&["three"], &[], Some(b"333"));
    assert_eq!(tx.record_put(&Some(id), &r1), Ok(eid(42, 1)));
    assert_eq!(tx.record_get_ver_latest(&id), Ok(Some(1)));
    assert_eq!(tx.record_put(&Some(id), &r2), Ok(eid(42, 2)));
    assert_eq!(tx.record_put(&Some(id), &r3), Ok(eid(42, 3)));
    assert_eq!(tx.record_get_ver_latest(&id), Ok(Some(3)));
    assert_eq!(tx.record_get(&eid(42, 1)), Ok(Some(r1.clone())));
    assert_eq!(tx.record_get(&eid(42, 2)), Ok(Some(r2.clone())));
    assert_eq!(tx.record_get(&eid(42, 3)), Ok(Some(r3.clone())));
    assert_eq!(tx.record_get(&EntityIdVer::latest(id)), Ok(Some(r3)));
    assert_eq!(tx.record_get_all_ids(), Ok(vec![eid(42, 3)]));
    assert_eq!(tx.record_del(&eid(42, 3)), Ok(true));
    assert_eq!(tx.record_get_ver_latest(&id), Ok(Some(2)));
    assert_eq!(tx.record_get(&EntityIdVer::latest(id)), Ok(Some(r2)));
    assert_eq!(tx.record_del(&eid(42, 1)), Ok(true));
    assert_eq!(tx.record_get_ver_latest(&id), Ok(Some(2)));
    assert_eq!(tx.record_get_all_ids(), Ok(vec![eid(42, 2)]));
    assert_eq!(tx.link_get_ver_latest(&id), Ok(None));
}

#[test]
fn memory_versions_can_be_exhausted() {
    let mut container = created();
    let mut tx = container.begin_transaction().unwrap();
    let id = EntityId::new(1);
    let mut rows = mze::container::tables::Tables::new();
    rows.records.push((EntityIdVer::new(id, u64::MAX), None));
    tx.tables = rows;
    assert_eq!(
        tx.record_put(&Some(id), &record(&[], &[], None)),
        Err(DataError::VersionsExhausted { id })
    );
    assert_eq!(tx.tables.records.len(), 1);
}

#[test]
fn memory_two_payload_rows_are_an_integrity_error() {
    let mut container = created();
    let mut tx = container.begin_transaction().unwrap();
    let at = eid(3, 1);
    tx.tables.records.push((at, Some(vec![1])));
    tx.tables.records.push((at, Some(vec![2])));
    assert_eq!(tx.record_get(&at), Err(DataError::TooManyRows { eid: at }));
    assert_eq!(
        tx.search(&SearchQuery::new("x")),
        Err(DataError::TooManyRows { eid: at })
    );
    assert_eq!(tx.search(&SearchQuery::new("")), Ok(vec![]));
}

#[test]
fn memory_commit_and_rollback() {
    let mut container = created();
    let mut tx = container.begin_transaction().unwrap();
    let kept = tx.record_put(&None, &record(&["kept"], &[], None)).unwrap();
    tx.commit().unwrap();
    let mut tx = container.begin_transaction().unwrap();
    let dropped = tx.record_put(&None, &record(&["dropped"], &[], None)).unwrap();
    assert!(tx.record_get(&dropped).unwrap().is_some());
    tx.rollback().unwrap();
    let tx = container.begin_transaction().unwrap();
    assert!(tx.record_get(&kept).unwrap().is_some());
    assert!(tx.record_get(&dropped).unwrap().is_none());
}

#[test]
fn memory_search_tags() {
    let mut container = created();
    let mut tx = container.begin_transaction().unwrap();
    tx.record_put(&None, &record(&["a", "b"], &[], None)).unwrap();
    assert_eq!(found_tags(&tx.search(&SearchQuery::new("#")).unwrap()), strings(&["a", "b"]));
    tx.record_put(&None, &record(&["foo", "b", "xfoox"], &[], None)).unwrap();
    assert_eq!(
        found_tags(&tx.search(&SearchQuery::new("#")).unwrap()),
        strings(&["a", "b", "foo", "xfoox"])
    );
    assert_eq!(
        found_tags(&tx.search(&SearchQuery::new("# #foo")).unwrap()),
        strings(&["foo", "xfoox"])
    );
    assert_eq!(
        found_tags(&tx.search(&SearchQuery::new("#foo # a")).unwrap()),
        strings(&["a", "foo", "xfoox"])
    );
    assert_eq!(found_tags(&tx.search(&SearchQuery::new("# nothing")).unwrap()), strings(&[]));
}

#[test]
fn memory_search_attributes() {
    let mut container = created();
    let mut tx = container.begin_transaction().unwrap();
    tx.record_put(&None, &record(&[], &[("colour", "red"), ("size", "big")], None)).unwrap();
    tx.record_put(&None, &record(&[], &[("colour", "red"), ("key", "value")], None)).unwrap();
    assert_eq!(
        found_attributes(&tx.search(&SearchQuery::new("#=")).unwrap()),
        pairs(&[("colour", "red"), ("size", "big"), ("key", "value")])
    );
    assert_eq!(
        found_attributes(&tx.search(&SearchQuery::new("#= #k=v")).unwrap()),
        pairs(&[("key", "value")])
    );
    assert_eq!(
        found_attributes(&tx.search(&SearchQuery::new("#= #e=")).unwrap()),
        pairs(&[("size", "big"), ("key", "value")])
    );
    assert_eq!(
        found_attributes(&tx.search(&SearchQuery::new("#= =e")).unwrap()),
        pairs(&[("colour", "red"), ("key", "value")])
    );
    assert_eq!(
        found_attributes(&tx.search(&SearchQuery::new("#= big")).unwrap()),
        pairs(&[("size", "big")])
    );
}

#[test]
fn memory_search_records_and_links() {
    let mut container = created();
    let mut tx = container.begin_transaction().unwrap();
    let a = tx
        .record_put(&None, &record(&["mytag"], &[("k", "v")], Some(b"well hello there")))
        .unwrap();
    let b = tx.record_put(&None, &record(&["tagged"], &[], Some(b"goodbye"))).unwrap();
    let c = tx.record_put(&None, &record(&["tag"], &[], None)).unwrap();
    let d = tx.record_put(&None, &record(&["tag"], &[], Some(&[0xff, 0xfe]))).unwrap();
    let e = tx.record_put(&None, &record(&["other"], &[], Some(b"hello"))).unwrap();
    let l = tx
        .link_put(
            &None,
            &Link {
                ta: TagsAndAttributes { tags: strings(&["a tag"]), attributes: pairs(&[]) },
                from: vec![a],
                to: vec![b],
            },
        )
        .unwrap();
    let m = tx
        .link_put(
            &None,
            &Link { ta: TagsAndAttributes::default(), from: vec![a], to: vec![e] },
        )
        .unwrap();
    let rec = |at| SearchResult::Record(SearchResultRecord { record_id: at });
    let lnk = |at| SearchResult::Link(SearchResultLink { link_id: at });

    assert_eq!(tx.search(&SearchQuery::new("hello #tag")), Ok(vec![rec(a), rec(c), rec(d), lnk(l)]));
    assert_eq!(tx.search(&SearchQuery::new("#tag")), Ok(vec![rec(a), rec(b), rec(c), rec(d), lnk(l)]));
    assert_eq!(tx.search(&SearchQuery::new("#tag #my")), Ok(vec![rec(a)]));
    assert_eq!(tx.search(&SearchQuery::new("#k=v")), Ok(vec![rec(a)]));
    assert_eq!(tx.search(&SearchQuery::new("#k=")), Ok(vec![rec(a)]));
    assert_eq!(tx.search(&SearchQuery::new("#=v")), Ok(vec![rec(a)]));
    assert_eq!(tx.search(&SearchQuery::new("#k=w")), Ok(vec![]));
    assert_eq!(
        tx.search(&SearchQuery::new("hello")),
        Ok(vec![rec(a), rec(c), rec(d), rec(e), lnk(l), lnk(m)])
    );
    assert_eq!(tx.search(&SearchQuery::new("")), Ok(vec![]));
    assert_eq!(tx.search(&SearchQuery::new("   ")), Ok(vec![]));
}

#[test]
fn memory_search_finds_latest_versions_only() {
    let mut container = created();
    let mut tx = container.begin_transaction().unwrap();
    let id = EntityId::new(8);
    tx.record_put(&Some(id), &record(&["old"], &[], None)).unwrap();
    let new = tx.record_put(&Some(id), &record(&["new"], &[], None)).unwrap();
    assert_eq!(tx.search(&SearchQuery::new("#old")), Ok(vec![]));
    assert_eq!(
        tx.search(&SearchQuery::new("#new")),
        Ok(vec![SearchResult::Record(SearchResultRecord { record_id: new })])
    );
}

#[test]
fn memory_smoke_with_random_data() {
    let mut container = created();
    let mut test_rng = helpers::TestRng::new(1);
    let mut tx = container.begin_transaction().unwrap();
    for _ in 0..20 {
        let id = helpers::random_entity_id(&mut test_rng);
        let r = helpers::random_record(&mut test_rng);
        let at = tx.record_put(&Some(id), &r).unwrap();
        assert_eq!(at, EntityIdVer::new(id, 1));
        assert_eq!(tx.record_get(&at), Ok(Some(r)));
    }
    assert_eq!(tx.record_get_all_ids().unwrap().len(), 20);
}
