use mze::search_query::{
    split_words, SearchQuery, SearchQueryAttributes, SearchQueryRecordsAndLinks, SearchQueryTags,
};

fn strings(items: &[&str]) -> Vec<String> {
    items.iter().map(|s| s.to_string()).collect()
}

fn pairs(items: &[(&str, &str)]) -> Vec<(String, String)> {
    items.iter().map(|(k, v)| (k.to_string(), v.to_string())).collect()
}

#[test]
fn words_are_split_on_ascii_whitespace() {
    assert_eq!(split_words(""), strings(&[]));
    assert_eq!(split_words(" \t\n\x0c\r "), strings(&[]));
    assert_eq!(split_words("a"), strings(&["a"]));
    assert_eq!(split_words("  hello \t#tag\n"), strings(&["hello", "#tag"]));
    assert_eq!(split_words("a\u{a0}b c"), strings(&["a\u{a0}b", "c"]));
    assert_eq!(split_words("жук #ключ=значение"), strings(&["жук", "#ключ=значение"]));
}

#[test]
fn hash_alone_asks_for_every_tag() {
    assert_eq!(
        SearchQuery::new("#"),
        SearchQuery::Tags(SearchQueryTags { tag_substrings: vec![] })
    );
}

#[test]
fn hash_word_asks_for_tags_and_strips_one_hash() {
    assert_eq!(
        SearchQuery::new("# #foo bar ##baz #="),
        SearchQuery::Tags(SearchQueryTags { tag_substrings: strings(&["foo", "bar", "#baz", "="]) })
    );
}

#[test]
fn hash_takes_precedence_over_hash_equals() {
    assert_eq!(
        SearchQuery::new("#= #"),
        SearchQuery::Tags(SearchQueryTags { tag_substrings: strings(&["="]) })
    );
}

#[test]
fn hash_equals_alone_asks_for_every_attribute() {
    assert_eq!(
        SearchQuery::new("#="),
        SearchQuery::Attributes(SearchQueryAttributes {
            key_substrings: vec![],
            value_substrings: vec![],
            kv_substrings: vec![],
        })
    );
}

#[test]
fn attribute_words_are_split_on_the_first_equals() {
    assert_eq!(
        SearchQuery::new("#= #k=v key= =value #a=b=c plain #both = #x="),
        SearchQuery::Attributes(SearchQueryAttributes {
            key_substrings: strings(&["key", "plain", "both", "x"]),
            value_substrings: strings(&["value", "plain", "both"]),
            kv_substrings: pairs(&[("k", "v"), ("a", "b=c")]),
        })
    );
}

#[test]
fn other_queries_ask_for_records_and_links() {
    assert_eq!(
        SearchQuery::new("hello #tag #k=v #key= #=value world k=v"),
        SearchQuery::RecordsAndLinks(SearchQueryRecordsAndLinks {
            tags: SearchQueryTags { tag_substrings: strings(&["tag"]) },
            attributes: SearchQueryAttributes {
                key_substrings: strings(&["key"]),
                value_substrings: strings(&["value"]),
                kv_substrings: pairs(&[("k", "v")]),
            },
            text_substrings: strings(&["hello", "world", "k=v"]),
        })
    );
}

#[test]
fn empty_query_holds_no_filter() {
    let query = SearchQuery::new("");
    match query {
        SearchQuery::RecordsAndLinks(q) => assert!(q.is_empty()),
        _ => panic!("an empty query asks for records and links"),
    }
}

#[test]
fn tags_check_finds_any_substring() {
    let q = SearchQueryTags { tag_substrings: strings(&["foo", "bar"]) };
    assert!(!q.is_empty());
    assert!(q.check("xfoox"));
    assert!(q.check("bar"));
    assert!(!q.check("fo"));
    assert!(!q.check("Foo"));
    assert!(!q.check(""));
    let empty = SearchQueryTags { tag_substrings: vec![] };
    assert!(empty.is_empty());
    assert!(!empty.check("anything"));
}

#[test]
fn attributes_check_finds_any_filter() {
    let q = SearchQueryAttributes {
        key_substrings: strings(&["name"]),
        value_substrings: strings(&["blue"]),
        kv_substrings: pairs(&[("col", "red")]),
    };
    assert!(!q.is_empty());
    assert!(q.check("username", "x"));
    assert!(q.check("x", "light blue"));
    assert!(q.check("colour", "dark red"));
    assert!(!q.check("colour", "green"));
    assert!(!q.check("x", "red"));
}
