use mze::renderer::{
    EntitiesPath, EntitiesPathError, EntityPath, JsonRecord, SearchResultRendererWeb,
    UriSearchQuery,
};
use mze::{EntityId, Record, SearchQuery, TagsAndAttributes};

fn ids(text: &str) -> Result<Vec<EntityId>, EntitiesPathError> {
    EntitiesPath { container_id: None, id: text.to_string() }.get_entity_ids()
}

fn bad(text: &str) -> Result<Vec<EntityId>, EntitiesPathError> {
    Err(EntitiesPathError::InvalidId { text: text.to_string() })
}

#[test]
fn entity_path_gives_identifiers() {
    let path = EntityPath { container_id: Some(3), id: 9 };
    assert_eq!(path.get_container_id(), Some(EntityId::new(3)));
    assert_eq!(path.get_id(), EntityId::new(9));
    let path = EntityPath { container_id: None, id: u64::MAX };
    assert_eq!(path.get_container_id(), None);
    assert_eq!(path.get_id(), EntityId::new(u64::MAX as u128));
}

#[test]
fn entities_path_lists_identifiers() {
    assert_eq!(ids("1"), Ok(vec![EntityId::new(1)]));
    assert_eq!(ids("10000,7,10000"), Ok(vec![EntityId::new(10000), EntityId::new(7), EntityId::new(10000)]));
    assert_eq!(ids("+5,007"), Ok(vec![EntityId::new(5), EntityId::new(7)]));
    assert_eq!(ids("18446744073709551615"), Ok(vec![EntityId::new(u64::MAX as u128)]));
    assert_eq!(ids("0"), Ok(vec![EntityId::new(0)]));
}

#[test]
fn entities_path_refuses_what_is_no_identifier() {
    assert_eq!(ids(""), bad(""));
    assert_eq!(ids("1,"), bad(""));
    assert_eq!(ids(",1"), bad(""));
    assert_eq!(ids("1,,2"), bad(""));
    assert_eq!(ids("1,a,b"), bad("a"));
    assert_eq!(ids("1, 2"), bad(" 2"));
    assert_eq!(ids("-1"), bad("-1"));
    assert_eq!(ids("+"), bad("+"));
    assert_eq!(ids("++1"), bad("++1"));
    assert_eq!(ids("1,18446744073709551616"), bad("18446744073709551616"));
    assert_eq!(ids("99999999999999999999999999"), bad("99999999999999999999999999"));
    assert_eq!(ids("1x"), bad("1x"));
    assert_eq!(ids("١"), bad("١"));
}

#[test]
fn entities_path_agrees_with_the_standard_parser() {
    for text in ["0", "+0", "00", "12", "+12", "1 ", "", "+", "-0", "18446744073709551615",
        "18446744073709551616", "184467440737095516150", "1_0", "0x10", "٣"]
    {
        let expected = text.parse::<u64>().ok().map(|id| vec![EntityId::new(id as u128)]);
        assert_eq!(ids(text).ok(), expected, "text={:?}", text);
    }
}

#[test]
fn uri_search_query_holds_a_query() {
    let query = UriSearchQuery { q: "# #foo".to_string() };
    match SearchQuery::new(&query.q) {
        SearchQuery::Tags(tags) => assert_eq!(tags.tag_substrings, vec!["foo".to_string()]),
        other => panic!("not a search for tags: {:?}", other),
    }
}

fn record(data: Option<&[u8]>) -> Record {
    Record {
        ta: TagsAndAttributes {
            tags: vec!["t".to_string()],
            attributes: vec![("k".to_string(), "v".to_string())],
        },
        data: data.map(|d| d.to_vec()),
    }
}

#[test]
fn json_record_from_record() {
    let eid = EntityId::new(5);
    assert_eq!(JsonRecord::from_eid_and_record(&eid, None), None);
    assert_eq!(
        JsonRecord::from_eid_and_record(&eid, Some(record(Some("héllo".as_bytes())))),
        Some(JsonRecord {
            id: Some(5),
            tags: vec!["t".to_string()],
            attributes: vec![("k".to_string(), "v".to_string())],
            data: Some("héllo".to_string()),
        })
    );
    assert_eq!(JsonRecord::from_eid_and_record(&eid, Some(record(None))).unwrap().data, None);
    assert_eq!(
        JsonRecord::from_eid_and_record(&eid, Some(record(Some(b"")))).unwrap().data,
        Some(String::new())
    );
    let lost = JsonRecord::from_eid_and_record(&eid, Some(record(Some(&[0xff, 0x00])))).unwrap();
    assert_eq!(lost.data, Some(String::from_utf8(vec![0xff, 0x00]).unwrap_err().to_string()));
}

#[test]
fn json_record_to_record_and_back() {
    let json = JsonRecord {
        id: Some(77),
        tags: vec!["a".to_string(), "b".to_string()],
        attributes: vec![("k".to_string(), "v".to_string())],
        data: Some("text ☃".to_string()),
    };
    let (eid, record) = json.get_id_and_record();
    assert_eq!(eid, Some(EntityId::new(77)));
    assert_eq!(record.ta.tags, json.tags);
    assert_eq!(record.ta.attributes, json.attributes);
    assert_eq!(record.data, Some("text ☃".as_bytes().to_vec()));
    assert_eq!(JsonRecord::from_eid_and_record(&eid.unwrap(), Some(record)), Some(json));
    let (eid, record) = JsonRecord::default().get_id_and_record();
    assert_eq!(eid, None);
    assert_eq!(record, Record { ta: TagsAndAttributes::default(), data: None });
}

#[test]
fn record_data_is_shown_as_text() {
    assert_eq!(SearchResultRendererWeb::render_record_data(&record(None)), "");
    assert_eq!(SearchResultRendererWeb::render_record_data(&record(Some(b"abc"))), "abc");
    assert_eq!(
        SearchResultRendererWeb::render_record_data(&record(Some(&[0xc3, 0x28]))),
        String::from_utf8(vec![0xc3, 0x28]).unwrap_err().to_string()
    );
}
