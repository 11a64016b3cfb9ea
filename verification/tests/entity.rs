use mze::container::rows::{
    attributes_from_rows, endpoints_from_rows, latest_refs, latest_version, next_entity_id,
    next_version, payload_from_rows, tags_from_rows, versions_of_id,
};
use mze::container::sqlite::{from_column, key_params, to_column, SqlParam};
use mze::container::DataError;
use mze::helpers::{random_attrs, random_record, random_tags, TestRng};
use mze::text::{slice_contains, str_contains};
use mze::{EntityId, EntityIdVer, ENTITY_ID_START, ENTITY_VER_FIRST, ENTITY_VER_LATEST};

fn eid(id: u128, ver: u64) -> EntityIdVer {
    EntityIdVer::new(EntityId::new(id), ver)
}

#[test]
fn entity_id_basics() {
    let e = EntityId::new(41);
    assert_eq!(e.id(), 41);
    assert_eq!(e.add_1(), EntityId::new(42));
    assert_eq!(EntityId::start().id(), 10000);
    assert_eq!(ENTITY_ID_START, 10000);
    assert!(EntityId::new(1) < EntityId::new(2));
}

#[test]
fn entity_id_halves() {
    let e = EntityId::new(0x0123_4567_89ab_cdef_fedc_ba98_7654_3210);
    assert_eq!(e.lo(), 0xfedc_ba98_7654_3210);
    assert_eq!(e.hi(), 0x0123_4567_89ab_cdef);
    assert_eq!(EntityId::from_halves(e.lo(), e.hi()), e);
    assert_eq!(EntityId::from_halves(u64::MAX, u64::MAX), EntityId::new(u128::MAX));
    assert_eq!(EntityId::from_halves(0, 1), EntityId::new(1 << 64));
    assert_eq!(EntityId::new(7).lo(), 7);
    assert_eq!(EntityId::new(7).hi(), 0);
}

#[test]
fn entity_id_ver_basics() {
    let e = EntityIdVer::new(EntityId::new(3), 9);
    assert_eq!(e.id(), EntityId::new(3));
    assert_eq!(e.ver(), 9);
    assert!(!e.is_latest());
    assert!(EntityIdVer::latest(EntityId::new(3)).is_latest());
    assert_eq!(EntityIdVer::latest(EntityId::new(3)).ver(), ENTITY_VER_LATEST);
    assert_eq!(ENTITY_VER_LATEST, 0);
    assert_eq!(ENTITY_VER_FIRST, 1);
}

#[test]
fn columns_hold_unsigned_numbers() {
    assert_eq!(to_column(0), 0);
    assert_eq!(to_column(5), 5);
    assert_eq!(to_column(i64::MAX as u64), i64::MAX);
    assert_eq!(to_column(1 << 63), i64::MIN);
    assert_eq!(to_column(u64::MAX), -1);
    assert_eq!(from_column(-1), u64::MAX);
    assert_eq!(from_column(i64::MIN), 1 << 63);
    assert_eq!(from_column(i64::MAX), i64::MAX as u64);
    for x in [0u64, 1, 2, 1 << 62, (1 << 63) - 1, 1 << 63, (1 << 63) + 1, u64::MAX] {
        assert_eq!(from_column(to_column(x)), x);
        assert_eq!(to_column(x), x as i64);
    }
    assert_eq!(
        key_params(&eid((3 << 64) | 2, u64::MAX)),
        vec![SqlParam::Integer(2), SqlParam::Integer(3), SqlParam::Integer(-1)]
    );
}

#[test]
fn substrings() {
    assert!(str_contains("hello world", "o w"));
    assert!(str_contains("hello", "hello"));
    assert!(str_contains("hello", ""));
    assert!(str_contains("", ""));
    assert!(!str_contains("", "a"));
    assert!(!str_contains("hello", "Hello"));
    assert!(!str_contains("hello", "hello!"));
    assert!(!str_contains("aab", "abb"));
    assert!(str_contains("aaab", "aab"));
    assert!(str_contains("жук в траве", "в т"));
    assert!(!str_contains("жук", "ж "));
    assert!(slice_contains(&[1, 2, 3], &[2, 3]));
    assert!(!slice_contains(&[1, 2, 3], &[3, 2]));
    assert!(slice_contains(&[], &[]));
}

#[test]
fn tags_from_rows_reports_the_first_repeat() {
    let at = eid(1, 1);
    let rows = |items: &[&str]| items.iter().map(|s| s.to_string()).collect::<Vec<_>>();
    assert_eq!(tags_from_rows(&at, rows(&[])), Ok(rows(&[])));
    assert_eq!(tags_from_rows(&at, rows(&["a", "b"])), Ok(rows(&["a", "b"])));
    assert_eq!(
        tags_from_rows(&at, rows(&["a", "b", "c", "b", "a"])),
        Err(DataError::DuplicateTag { eid: at, tag: "b".to_string() })
    );
    assert_eq!(
        tags_from_rows(&at, rows(&["a", "a"])),
        Err(DataError::DuplicateTag { eid: at, tag: "a".to_string() })
    );
}

#[test]
fn attributes_from_rows_reports_the_first_repeated_key() {
    let at = eid(1, 1);
    let rows = |items: &[(&str, &str)]| {
        items.iter().map(|(k, v)| (k.to_string(), v.to_string())).collect::<Vec<_>>()
    };
    assert_eq!(
        attributes_from_rows(&at, rows(&[("k", "v"), ("l", "v")])),
        Ok(rows(&[("k", "v"), ("l", "v")]))
    );
    assert_eq!(
        attributes_from_rows(&at, rows(&[("k", "v"), ("l", "v"), ("k", "v")])),
        Err(DataError::DuplicateAttribute {
            eid: at,
            key: "k".to_string(),
            value: "v".to_string()
        })
    );
}

#[test]
fn payload_from_rows_wants_at_most_one_row() {
    let at = eid(1, 1);
    assert_eq!(payload_from_rows(&at, vec![]), Ok(None));
    assert_eq!(payload_from_rows(&at, vec![None]), Ok(Some(None)));
    assert_eq!(payload_from_rows(&at, vec![Some(vec![1, 2])]), Ok(Some(Some(vec![1, 2]))));
    assert_eq!(
        payload_from_rows(&at, vec![None, Some(vec![])]),
        Err(DataError::TooManyRows { eid: at })
    );
}

#[test]
fn endpoints_from_rows_splits_by_direction() {
    let rows = vec![(true, eid(1, 1)), (false, eid(2, 1)), (true, eid(3, 1)), (false, eid(2, 1))];
    assert_eq!(
        endpoints_from_rows(&rows),
        (vec![eid(2, 1), eid(2, 1)], vec![eid(1, 1), eid(3, 1)])
    );
    assert_eq!(endpoints_from_rows(&vec![]), (vec![], vec![]));
}

#[test]
fn versions_and_ids() {
    assert_eq!(latest_version(&vec![]), None);
    assert_eq!(latest_version(&vec![3, 9, 2]), Some(9));
    let refs = vec![eid(5, 1), eid(6, 4), eid(5, 3), eid(7, 1), eid(5, 2)];
    assert_eq!(versions_of_id(&refs, &EntityId::new(5)), vec![1, 3, 2]);
    assert_eq!(versions_of_id(&refs, &EntityId::new(8)), vec![]);
    assert_eq!(latest_refs(&refs), vec![eid(5, 3), eid(6, 4), eid(7, 1)]);
    assert_eq!(next_version(None), Some(1));
    assert_eq!(next_version(Some(1)), Some(2));
    assert_eq!(next_version(Some(u64::MAX)), None);
    assert_eq!(next_entity_id(&vec![], &vec![]), Some(EntityId::new(10000)));
    assert_eq!(next_entity_id(&refs, &vec![]), Some(EntityId::new(8)));
    assert_eq!(next_entity_id(&refs, &vec![eid(20000, 1)]), Some(EntityId::new(20001)));
    assert_eq!(next_entity_id(&vec![eid(20000, 1)], &refs), Some(EntityId::new(20001)));
    assert_eq!(next_entity_id(&vec![], &vec![eid(u128::MAX, 1)]), None);
}

#[test]
fn random_data_is_well_formed() {
    let mut rng = TestRng::new(1);
    let mut again = TestRng::new(1);
    assert_eq!(rng.rand_u64(), again.rand_u64());
    assert_eq!(rng.rand_u128(), again.rand_u128());
    for _ in 0..100 {
        assert!(rng.rand_range(3) < 3);
        let word = rng.rand_string(5);
        assert!(word.chars().count() < 5);
        assert!(word.chars().all(|c| c.is_ascii_alphanumeric()));
        assert!(rng.rand_vec_u8(7).len() < 7);
        let tags = random_tags(&mut rng);
        assert!(tags.iter().all(|t| t.len() < 16 && t.chars().all(|c| c.is_ascii_alphanumeric())));
        let mut sorted = tags.clone();
        sorted.sort();
        sorted.dedup();
        assert_eq!(sorted.len(), tags.len());
        assert!(tags.len() < 16);
        let attrs = random_attrs(&mut rng);
        assert!(attrs.len() < 16);
        assert!(attrs.iter().all(|(k, v)| k.len() < 16 && v.len() < 16));
        let mut keys: Vec<_> = attrs.iter().map(|(k, _)| k.clone()).collect();
        keys.sort();
        keys.dedup();
        assert_eq!(keys.len(), attrs.len());
        let record = random_record(&mut rng);
        assert!(record.data.map_or(true, |d| d.len() < 0x100));
    }
    let mut different = false;
    let mut rng = TestRng::new(2);
    for _ in 0..10 {
        if rng.rand_vec_u8(64) != vec![0; 0] && rng.rand_string(16) != rng.rand_string(16) {
            different = true;
        }
    }
    assert!(different);
}

#[test]
fn a_tag_is_added_unless_it_is_there() {
    let mut tags: Vec<String> = Vec::new();
    mze::helpers::add_tag(&mut tags, "a".to_string());
    mze::helpers::add_tag(&mut tags, "b".to_string());
    mze::helpers::add_tag(&mut tags, "a".to_string());
    mze::helpers::add_tag(&mut tags, "".to_string());
    assert_eq!(tags, vec!["a".to_string(), "b".to_string(), String::new()]);
}

#[test]
fn an_attribute_takes_the_place_of_the_one_with_its_key() {
    let pair = |k: &str, v: &str| (k.to_string(), v.to_string());
    let mut attrs: Vec<(String, String)> = Vec::new();
    mze::helpers::add_attribute(&mut attrs, "k".to_string(), "1".to_string());
    mze::helpers::add_attribute(&mut attrs, "l".to_string(), "2".to_string());
    mze::helpers::add_attribute(&mut attrs, "k".to_string(), "3".to_string());
    assert_eq!(attrs, vec![pair("k", "3"), pair("l", "2")]);
    let mut twice = vec![pair("a", "1"), pair("k", "2"), pair("k", "3")];
    mze::helpers::add_attribute(&mut twice, "k".to_string(), "4".to_string());
    assert_eq!(twice, vec![pair("a", "1"), pair("k", "4"), pair("k", "3")]);
}
