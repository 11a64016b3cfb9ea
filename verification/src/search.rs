//! Evaluating a query on what a container holds.
//!
//! A search for tags gives every distinct tag that the query selects, and a
//! search for attributes every distinct pair of a key and a value. A search
//! for records and links gives the reference of every record and of every
//! link that the query finds.

use crate::container::rows::position_before;
use crate::entity::{
    EntityIdVer, Link, LinkView, Record, RecordView, SearchResult, SearchResultAttribute,
    SearchResultLink, SearchResultRecord, SearchResultTag, SearchResultView,
};
use crate::search_query::{
    SearchQueryAttributes, SearchQueryAttributesView, SearchQueryRecordsAndLinks,
    SearchQueryRecordsAndLinksView, SearchQueryTags, SearchQueryTagsView, SearchQueryView,
};
use vstd::prelude::*;

verus! {

/// The items that `keep` holds of, each once, in the order in which they
/// first stand in `items`.
pub open spec fn distinct_kept<A>(items: Seq<A>, keep: spec_fn(A) -> bool) -> Seq<A>
    decreases items.len(),
{
    if items.len() == 0 {
        Seq::empty()
    } else {
        let before = distinct_kept(items.drop_last(), keep);
        if keep(items.last()) && !before.contains(items.last()) {
            before.push(items.last())
        } else {
            before
        }
    }
}

/// What is kept holds each item once, and holds exactly the items that
/// `keep` holds of.
pub proof fn lemma_distinct_kept<A>(items: Seq<A>, keep: spec_fn(A) -> bool)
    ensures
        distinct_kept(items, keep).no_duplicates(),
        forall|a: A| #[trigger]
            distinct_kept(items, keep).contains(a) <==> items.contains(a) && keep(a),
    decreases items.len(),
{
    let kept = distinct_kept(items, keep);
    if items.len() > 0 {
        let shorter = items.drop_last();
        let last = items.last();
        let before = distinct_kept(shorter, keep);
        lemma_distinct_kept(shorter, keep);
        assert forall|a: A| #[trigger] kept.contains(a) <==> items.contains(a) && keep(a) by {
            if items.contains(a) {
                let k = choose|k: int| 0 <= k < items.len() && items[k] == a;
                if k < shorter.len() {
                    assert(shorter[k] == a);
                }
            }
            if shorter.contains(a) {
                let k = choose|k: int| 0 <= k < shorter.len() && shorter[k] == a;
                assert(items[k] == a);
            }
            if a == last {
                assert(items[items.len() - 1] == a);
            }
            if before.contains(a) {
                let k = choose|k: int| 0 <= k < before.len() && before[k] == a;
                assert(kept[k] == a);
            }
            if kept.contains(a) {
                let k = choose|k: int| 0 <= k < kept.len() && kept[k] == a;
                if k < before.len() {
                    assert(before[k] == a);
                }
            }
            if keep(last) && !before.contains(last) {
                assert(kept[kept.len() - 1] == last);
            }
        }
        if keep(last) && !before.contains(last) {
            assert forall|i: int, j: int|
                0 <= i < kept.len() && 0 <= j < kept.len() && i != j implies #[trigger] kept[i]
                != #[trigger] kept[j] by {
                if i < before.len() {
                    assert(before[i] == kept[i]);
                }
                if j < before.len() {
                    assert(before[j] == kept[j]);
                }
            }
        }
    }
}

/// The tags that a search for tags finds among all the tags of a container.
pub open spec fn found_tags(q: SearchQueryTagsView, tags: Seq<Seq<char>>) -> Seq<Seq<char>> {
    distinct_kept(tags, |tag: Seq<char>| q.selects(tag))
}

/// The attributes that a search for attributes finds among all the
/// attributes of a container.
pub open spec fn found_attributes(
    q: SearchQueryAttributesView,
    attributes: Seq<(Seq<char>, Seq<char>)>,
) -> Seq<(Seq<char>, Seq<char>)> {
    distinct_kept(attributes, |kv: (Seq<char>, Seq<char>)| q.selects(kv.0, kv.1))
}

/// A search for tags finds each tag once, and finds exactly the tags of the
/// container that the query selects: all of them where it is empty, and else
/// those with one of its substrings.
pub proof fn lemma_found_tags(q: SearchQueryTagsView, tags: Seq<Seq<char>>)
    ensures
        found_tags(q, tags).no_duplicates(),
        forall|tag: Seq<char>| #[trigger]
            found_tags(q, tags).contains(tag) <==> tags.contains(tag) && q.selects(tag),
{
    lemma_distinct_kept(tags, |tag: Seq<char>| q.selects(tag));
}

/// A search for attributes finds each pair of a key and a value once, and
/// finds exactly the pairs of the container that the query selects.
pub proof fn lemma_found_attributes(
    q: SearchQueryAttributesView,
    attributes: Seq<(Seq<char>, Seq<char>)>,
)
    ensures
        found_attributes(q, attributes).no_duplicates(),
        forall|kv: (Seq<char>, Seq<char>)| #[trigger]
            found_attributes(q, attributes).contains(kv) <==> attributes.contains(kv) && q.selects(
                kv.0,
                kv.1,
            ),
{
    lemma_distinct_kept(attributes, |kv: (Seq<char>, Seq<char>)| q.selects(kv.0, kv.1));
}

/// The tags as search results.
pub open spec fn tag_results(tags: Seq<Seq<char>>) -> Seq<SearchResultView> {
    Seq::new(tags.len(), |i: int| SearchResultView::Tag(tags[i]))
}

/// The attributes as search results.
pub open spec fn attribute_results(attributes: Seq<(Seq<char>, Seq<char>)>) -> Seq<
    SearchResultView,
> {
    Seq::new(attributes.len(), |i: int| SearchResultView::Attribute(attributes[i].0, attributes[i].1))
}

/// What a list of results of a search for tags holds: tags, each once, each
/// selected by the query.
pub open spec fn are_found_tags(q: SearchQueryTagsView, found: Seq<SearchResultView>) -> bool {
    &&& found.no_duplicates()
    &&& forall|i: int|
        0 <= i < found.len() ==> (#[trigger] found[i] matches SearchResultView::Tag(tag)
            && q.selects(tag))
}

/// What a list of results of a search for attributes holds: attributes,
/// each once, each selected by the query.
pub open spec fn are_found_attributes(
    q: SearchQueryAttributesView,
    found: Seq<SearchResultView>,
) -> bool {
    &&& found.no_duplicates()
    &&& forall|i: int|
        0 <= i < found.len() ==> (#[trigger] found[i] matches SearchResultView::Attribute(
            key,
            value,
        ) && q.selects(key, value))
}

/// The found tags, as search results, are tags that the query selects, each
/// once.
pub proof fn lemma_tag_results(q: SearchQueryTagsView, tags: Seq<Seq<char>>)
    ensures
        are_found_tags(q, tag_results(found_tags(q, tags))),
{
    let found = found_tags(q, tags);
    let results = tag_results(found);
    lemma_found_tags(q, tags);
    assert forall|i: int| 0 <= i < results.len() implies (#[trigger] results[i] matches SearchResultView::Tag(
        tag,
    ) && q.selects(tag)) by {
        assert(found.contains(found[i]));
    }
    assert forall|i: int, j: int|
        0 <= i < results.len() && 0 <= j < results.len() && i != j implies #[trigger] results[i]
        != #[trigger] results[j] by {
        assert(found[i] != found[j]);
    }
}

/// The found attributes, as search results, are attributes that the query
/// selects, each once.
pub proof fn lemma_attribute_results(
    q: SearchQueryAttributesView,
    attributes: Seq<(Seq<char>, Seq<char>)>,
)
    ensures
        are_found_attributes(q, attribute_results(found_attributes(q, attributes))),
{
    let found = found_attributes(q, attributes);
    let results = attribute_results(found);
    lemma_found_attributes(q, attributes);
    assert forall|i: int| 0 <= i < results.len() implies (#[trigger] results[i] matches SearchResultView::Attribute(
        key,
        value,
    ) && q.selects(key, value)) by {
        assert(found.contains(found[i]));
    }
    assert forall|i: int, j: int|
        0 <= i < results.len() && 0 <= j < results.len() && i != j implies #[trigger] results[i]
        != #[trigger] results[j] by {
        assert(found[i] != found[j]);
    }
}

/// Every result is a record or a link.
pub open spec fn are_entities(found: Seq<SearchResultView>) -> bool {
    forall|i: int| 0 <= i < found.len() ==> (#[trigger] found[i]) is Record || found[i] is Link
}

/// What a search gave is of the kind that the query asks for: tags that the
/// query selects, each once; attributes that the query selects, each once;
/// or records and links, each once, and none of them for an empty query.
pub open spec fn answers(query: SearchQueryView, found: Seq<SearchResultView>) -> bool {
    match query {
        SearchQueryView::Tags(q) => are_found_tags(q, found),
        SearchQueryView::Attributes(q) => are_found_attributes(q, found),
        SearchQueryView::RecordsAndLinks(q) => {
            &&& are_entities(found)
            &&& found.no_duplicates()
            &&& q.is_empty() ==> found.len() == 0
        },
    }
}

/// The result of a search for tags among all the tags of a container.
pub fn search_tags(q: &SearchQueryTags, tags: &Vec<String>) -> (r: Vec<SearchResult>)
    ensures
        r.deep_view() == tag_results(found_tags(q@, tags.deep_view())),
{
    let ghost all = tags.deep_view();
    let all_wanted: bool = q.is_empty();
    let mut found: Vec<String> = Vec::new();
    let mut results: Vec<SearchResult> = Vec::new();
    let n: usize = tags.len();
    let mut i: usize = 0;
    assert(found.deep_view() =~= found_tags(q@, all.take(0)));
    assert(results.deep_view() =~= tag_results(found.deep_view()));
    while i < n
        invariant
            n == tags.len(),
            all == tags.deep_view(),
            all_wanted == q@.is_empty(),
            i <= n,
            found.deep_view() == found_tags(q@, all.take(i as int)),
            results.deep_view() == tag_results(found.deep_view()),
        decreases n - i,
    {
        let ghost before = found.deep_view();
        let ghost results_before = results.deep_view();
        assert(all.take(i + 1).drop_last() =~= all.take(i as int));
        assert(all.take(i + 1).last() == tags@[i as int]@);
        let wanted: bool = all_wanted || q.check(tags[i].as_str());
        if wanted {
            let end: usize = found.len();
            assert(before.take(end as int) =~= before);
            if position_before(&found, end, &tags[i]).is_none() {
                found.push(tags[i].clone());
                results.push(SearchResult::Tag(SearchResultTag { tag: tags[i].clone() }));
                assert(found.deep_view() =~= before.push(tags@[i as int]@));
                assert(results.deep_view() =~= results_before.push(
                    SearchResultView::Tag(tags@[i as int]@),
                ));
                assert(results.deep_view() =~= tag_results(found.deep_view()));
            }
        }
        i += 1;
    }
    assert(all.take(n as int) =~= all);
    results
}

/// The index of the pair of `key` and `value` in `v`.
fn pair_position(v: &Vec<(String, String)>, key: &String, value: &String) -> (r: Option<usize>)
    ensures
        r is Some <==> v.deep_view().contains((key@, value@)),
{
    let ghost all = v.deep_view();
    let n: usize = v.len();
    let mut k: usize = 0;
    while k < n
        invariant
            n == v.len(),
            all == v.deep_view(),
            k <= n,
            forall|m: int| 0 <= m < k ==> all[m] != (key@, value@),
        decreases n - k,
    {
        assert(all[k as int] == (v@[k as int].0@, v@[k as int].1@));
        if v[k].0 == *key && v[k].1 == *value {
            return Some(k);
        }
        k += 1;
    }
    None
}

/// The result of a search for attributes among all the attributes of a
/// container.
pub fn search_attributes(q: &SearchQueryAttributes, attributes: &Vec<(String, String)>) -> (r: Vec<
    SearchResult,
>)
    ensures
        r.deep_view() == attribute_results(found_attributes(q@, attributes.deep_view())),
{
    let ghost all = attributes.deep_view();
    let all_wanted: bool = q.is_empty();
    let mut found: Vec<(String, String)> = Vec::new();
    let mut results: Vec<SearchResult> = Vec::new();
    let n: usize = attributes.len();
    let mut i: usize = 0;
    assert(found.deep_view() =~= found_attributes(q@, all.take(0)));
    assert(results.deep_view() =~= attribute_results(found.deep_view()));
    while i < n
        invariant
            n == attributes.len(),
            all == attributes.deep_view(),
            all_wanted == q@.is_empty(),
            i <= n,
            found.deep_view() == found_attributes(q@, all.take(i as int)),
            results.deep_view() == attribute_results(found.deep_view()),
        decreases n - i,
    {
        let ghost before = found.deep_view();
        let ghost results_before = results.deep_view();
        let ghost key = attributes@[i as int].0@;
        let ghost value = attributes@[i as int].1@;
        assert(all.take(i + 1).drop_last() =~= all.take(i as int));
        assert(all.take(i + 1).last() == (key, value));
        let wanted: bool = all_wanted || q.check(
            attributes[i].0.as_str(),
            attributes[i].1.as_str(),
        );
        if wanted {
            if pair_position(&found, &attributes[i].0, &attributes[i].1).is_none() {
                found.push((attributes[i].0.clone(), attributes[i].1.clone()));
                results.push(
                    SearchResult::Attribute(
                        SearchResultAttribute {
                            key: attributes[i].0.clone(),
                            value: attributes[i].1.clone(),
                        },
                    ),
                );
                assert(found.deep_view() =~= before.push((key, value)));
                assert(results.deep_view() =~= results_before.push(
                    SearchResultView::Attribute(key, value),
                ));
                assert(results.deep_view() =~= attribute_results(found.deep_view()));
            }
        }
        i += 1;
    }
    assert(all.take(n as int) =~= all);
    results
}

/// The references of the records that the query finds, in their order.
pub open spec fn found_records(
    q: SearchQueryRecordsAndLinksView,
    records: Seq<(EntityIdVer, RecordView)>,
) -> Seq<SearchResultView>
    decreases records.len(),
{
    if records.len() == 0 {
        Seq::empty()
    } else {
        let before = found_records(q, records.drop_last());
        if q.matches_record(records.last().1) {
            before.push(SearchResultView::Record(records.last().0))
        } else {
            before
        }
    }
}

/// The references of the links that the query finds, in their order.
pub open spec fn found_links(
    q: SearchQueryRecordsAndLinksView,
    links: Seq<(EntityIdVer, LinkView)>,
) -> Seq<SearchResultView>
    decreases links.len(),
{
    if links.len() == 0 {
        Seq::empty()
    } else {
        let before = found_links(q, links.drop_last());
        if q.matches_link(links.last().1) {
            before.push(SearchResultView::Link(links.last().0))
        } else {
            before
        }
    }
}

/// The model of a list of records with their references.
pub open spec fn records_view(records: Seq<(EntityIdVer, Record)>) -> Seq<
    (EntityIdVer, RecordView),
> {
    Seq::new(records.len(), |i: int| (records[i].0, records[i].1@))
}

/// The model of a list of links with their references.
pub open spec fn links_view(links: Seq<(EntityIdVer, Link)>) -> Seq<(EntityIdVer, LinkView)> {
    Seq::new(links.len(), |i: int| (links[i].0, links[i].1@))
}

/// The found records are those that the query finds among the records.
pub proof fn lemma_found_records(
    q: SearchQueryRecordsAndLinksView,
    records: Seq<(EntityIdVer, RecordView)>,
    result: SearchResultView,
)
    ensures
        found_records(q, records).contains(result) <==> exists|i: int|
            0 <= i < records.len() && result == SearchResultView::Record(
                (#[trigger] records[i]).0,
            ) && q.matches_record(records[i].1),
    decreases records.len(),
{
    if records.len() > 0 {
        let shorter = records.drop_last();
        let last = records.last();
        let before = found_records(q, shorter);
        let found = found_records(q, records);
        lemma_found_records(q, shorter, result);
        if found.contains(result) {
            let k = choose|k: int| 0 <= k < found.len() && found[k] == result;
            if k < before.len() {
                assert(before[k] == result);
                let i = choose|i: int|
                    0 <= i < shorter.len() && result == SearchResultView::Record(
                        (#[trigger] shorter[i]).0,
                    ) && q.matches_record(shorter[i].1);
                assert(records[i] == shorter[i]);
            } else {
                assert(records[records.len() - 1] == last);
            }
        }
        if exists|i: int|
            0 <= i < records.len() && result == SearchResultView::Record((#[trigger] records[i]).0)
                && q.matches_record(records[i].1) {
            let i = choose|i: int|
                0 <= i < records.len() && result == SearchResultView::Record(
                    (#[trigger] records[i]).0,
                ) && q.matches_record(records[i].1);
            if i < shorter.len() {
                assert(shorter[i] == records[i]);
                let k = choose|k: int| 0 <= k < before.len() && before[k] == result;
                assert(found[k] == result);
            } else {
                assert(found[found.len() - 1] == result);
            }
        }
    }
}

/// The found links are those that the query finds among the links.
pub proof fn lemma_found_links(
    q: SearchQueryRecordsAndLinksView,
    links: Seq<(EntityIdVer, LinkView)>,
    result: SearchResultView,
)
    ensures
        found_links(q, links).contains(result) <==> exists|i: int|
            0 <= i < links.len() && result == SearchResultView::Link((#[trigger] links[i]).0)
                && q.matches_link(links[i].1),
    decreases links.len(),
{
    if links.len() > 0 {
        let shorter = links.drop_last();
        let last = links.last();
        let before = found_links(q, shorter);
        let found = found_links(q, links);
        lemma_found_links(q, shorter, result);
        if found.contains(result) {
            let k = choose|k: int| 0 <= k < found.len() && found[k] == result;
            if k < before.len() {
                assert(before[k] == result);
                let i = choose|i: int|
                    0 <= i < shorter.len() && result == SearchResultView::Link(
                        (#[trigger] shorter[i]).0,
                    ) && q.matches_link(shorter[i].1);
                assert(links[i] == shorter[i]);
            } else {
                assert(links[links.len() - 1] == last);
            }
        }
        if exists|i: int|
            0 <= i < links.len() && result == SearchResultView::Link((#[trigger] links[i]).0)
                && q.matches_link(links[i].1) {
            let i = choose|i: int|
                0 <= i < links.len() && result == SearchResultView::Link((#[trigger] links[i]).0)
                    && q.matches_link(links[i].1);
            if i < shorter.len() {
                assert(shorter[i] == links[i]);
                let k = choose|k: int| 0 <= k < before.len() && before[k] == result;
                assert(found[k] == result);
            } else {
                assert(found[found.len() - 1] == result);
            }
        }
    }
}

/// Records with distinct references are found once each, and links
/// likewise; what is found among records is no link, and the other way
/// round.
pub proof fn lemma_found_entities_distinct(
    q: SearchQueryRecordsAndLinksView,
    records: Seq<(EntityIdVer, RecordView)>,
    links: Seq<(EntityIdVer, LinkView)>,
)
    requires
        forall|i: int, j: int|
            0 <= i < j < records.len() ==> (#[trigger] records[i]).0 != (#[trigger] records[j]).0,
        forall|i: int, j: int|
            0 <= i < j < links.len() ==> (#[trigger] links[i]).0 != (#[trigger] links[j]).0,
    ensures
        (found_records(q, records) + found_links(q, links)).no_duplicates(),
{
    let of_records = found_records(q, records);
    let of_links = found_links(q, links);
    lemma_found_records_distinct(q, records);
    lemma_found_links_distinct(q, links);
    let all = of_records + of_links;
    assert forall|i: int, j: int| 0 <= i < all.len() && 0 <= j < all.len() && i != j implies #[trigger] all[i]
        != #[trigger] all[j] by {
        if i < of_records.len() && j >= of_records.len() {
            lemma_found_records(q, records, all[i]);
            lemma_found_links(q, links, all[j]);
            assert(of_records[i] == all[i]);
            assert(of_links[j - of_records.len()] == all[j]);
            assert(of_records.contains(all[i]));
            assert(of_links.contains(all[j]));
        } else if j < of_records.len() && i >= of_records.len() {
            lemma_found_records(q, records, all[j]);
            lemma_found_links(q, links, all[i]);
            assert(of_records[j] == all[j]);
            assert(of_links[i - of_records.len()] == all[i]);
            assert(of_records.contains(all[j]));
            assert(of_links.contains(all[i]));
        } else if i < of_records.len() {
            assert(of_records[i] != of_records[j]);
        } else {
            assert(of_links[i - of_records.len()] != of_links[j - of_records.len()]);
        }
    }
}

proof fn lemma_found_records_distinct(
    q: SearchQueryRecordsAndLinksView,
    records: Seq<(EntityIdVer, RecordView)>,
)
    requires
        forall|i: int, j: int|
            0 <= i < j < records.len() ==> (#[trigger] records[i]).0 != (#[trigger] records[j]).0,
    ensures
        found_records(q, records).no_duplicates(),
    decreases records.len(),
{
    if records.len() > 0 {
        let shorter = records.drop_last();
        let last = records.last();
        let before = found_records(q, shorter);
        let found = found_records(q, records);
        assert forall|i: int, j: int| 0 <= i < j < shorter.len() implies (#[trigger] shorter[i]).0
            != (#[trigger] shorter[j]).0 by {
            assert(shorter[i] == records[i]);
            assert(shorter[j] == records[j]);
        }
        lemma_found_records_distinct(q, shorter);
        if q.matches_record(last.1) {
            let added = SearchResultView::Record(last.0);
            lemma_found_records(q, shorter, added);
            if before.contains(added) {
                let i = choose|i: int|
                    0 <= i < shorter.len() && added == SearchResultView::Record(
                        (#[trigger] shorter[i]).0,
                    ) && q.matches_record(shorter[i].1);
                assert(records[i] == shorter[i]);
                assert(records[i].0 != records[records.len() - 1].0);
            }
            assert forall|i: int, j: int|
                0 <= i < found.len() && 0 <= j < found.len() && i != j implies #[trigger] found[i]
                != #[trigger] found[j] by {
                if i < before.len() {
                    assert(before[i] == found[i]);
                }
                if j < before.len() {
                    assert(before[j] == found[j]);
                }
            }
        }
    }
}

proof fn lemma_found_links_distinct(
    q: SearchQueryRecordsAndLinksView,
    links: Seq<(EntityIdVer, LinkView)>,
)
    requires
        forall|i: int, j: int|
            0 <= i < j < links.len() ==> (#[trigger] links[i]).0 != (#[trigger] links[j]).0,
    ensures
        found_links(q, links).no_duplicates(),
    decreases links.len(),
{
    if links.len() > 0 {
        let shorter = links.drop_last();
        let last = links.last();
        let before = found_links(q, shorter);
        let found = found_links(q, links);
        assert forall|i: int, j: int| 0 <= i < j < shorter.len() implies (#[trigger] shorter[i]).0
            != (#[trigger] shorter[j]).0 by {
            assert(shorter[i] == links[i]);
            assert(shorter[j] == links[j]);
        }
        lemma_found_links_distinct(q, shorter);
        if q.matches_link(last.1) {
            let added = SearchResultView::Link(last.0);
            lemma_found_links(q, shorter, added);
            if before.contains(added) {
                let i = choose|i: int|
                    0 <= i < shorter.len() && added == SearchResultView::Link(
                        (#[trigger] shorter[i]).0,
                    ) && q.matches_link(shorter[i].1);
                assert(links[i] == shorter[i]);
                assert(links[i].0 != links[links.len() - 1].0);
            }
            assert forall|i: int, j: int|
                0 <= i < found.len() && 0 <= j < found.len() && i != j implies #[trigger] found[i]
                != #[trigger] found[j] by {
                if i < before.len() {
                    assert(before[i] == found[i]);
                }
                if j < before.len() {
                    assert(before[j] == found[j]);
                }
            }
        }
    }
}

/// The result of a search for records and links among the records and the
/// links of a container: the found records, then the found links.
pub fn search_entities(
    q: &SearchQueryRecordsAndLinks,
    records: &Vec<(EntityIdVer, Record)>,
    links: &Vec<(EntityIdVer, Link)>,
) -> (r: Vec<SearchResult>)
    ensures
        r.deep_view() == found_records(q@, records_view(records@)) + found_links(
            q@,
            links_view(links@),
        ),
{
    let ghost all_records = records_view(records@);
    let ghost all_links = links_view(links@);
    let mut results: Vec<SearchResult> = Vec::new();
    let n: usize = records.len();
    let mut i: usize = 0;
    assert(results.deep_view() =~= found_records(q@, all_records.take(0)));
    while i < n
        invariant
            n == records.len(),
            all_records == records_view(records@),
            i <= n,
            results.deep_view() == found_records(q@, all_records.take(i as int)),
        decreases n - i,
    {
        let ghost before = results.deep_view();
        assert(all_records.take(i + 1).drop_last() =~= all_records.take(i as int));
        assert(all_records.take(i + 1).last() == (records@[i as int].0, records@[i as int].1@));
        if q.matches_record(&records[i].1) {
            results.push(SearchResult::Record(SearchResultRecord { record_id: records[i].0 }));
            assert(results.deep_view() =~= before.push(
                SearchResultView::Record(records@[i as int].0),
            ));
        }
        i += 1;
    }
    assert(all_records.take(n as int) =~= all_records);
    let ghost of_records = results.deep_view();
    let m: usize = links.len();
    let mut j: usize = 0;
    assert(results.deep_view() =~= of_records + found_links(q@, all_links.take(0)));
    while j < m
        invariant
            m == links.len(),
            all_links == links_view(links@),
            j <= m,
            results.deep_view() == of_records + found_links(q@, all_links.take(j as int)),
        decreases m - j,
    {
        let ghost before = results.deep_view();
        assert(all_links.take(j + 1).drop_last() =~= all_links.take(j as int));
        assert(all_links.take(j + 1).last() == (links@[j as int].0, links@[j as int].1@));
        if q.matches_link(&links[j].1) {
            results.push(SearchResult::Link(SearchResultLink { link_id: links[j].0 }));
            assert(results.deep_view() =~= before.push(SearchResultView::Link(links@[j as int].0)));
        }
        j += 1;
    }
    assert(all_links.take(m as int) =~= all_links);
    results
}

} // verus!
