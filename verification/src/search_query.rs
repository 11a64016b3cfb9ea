//! The search query language: its parser and the matching that it drives.
//!
//! A query is a line of words separated by ASCII whitespace. A word `#` makes
//! the query a search for tags, a word `#=` a search for attributes, and
//! every other query is a search for records and links.

use crate::entity::{
    keys_of, values_of, Link, LinkView, Record, RecordView, TagsAndAttributes,
    TagsAndAttributesView,
};
use crate::text::{
    chars_of, is_utf8, lemma_payload_contains, slice_contains, str_contains, text_contains,
};
use vstd::prelude::*;
use vstd::utf8::{decode_utf8, valid_utf8};

verus! {

/// ASCII whitespace: space, tab, line feed, form feed and carriage return.
pub open spec fn is_space(c: char) -> bool {
    c == ' ' || c == '\t' || c == '\n' || c == '\x0C' || c == '\r'
}

/// The end of the run of characters other than whitespace that starts at
/// `from`: the index of the first whitespace at or after `from`, or the
/// length of `s`.
pub open spec fn word_end(s: Seq<char>, from: int) -> int
    decreases s.len() - from,
{
    if 0 <= from < s.len() && !is_space(s[from]) {
        word_end(s, from + 1)
    } else {
        from
    }
}

pub proof fn lemma_word_end_bounds(s: Seq<char>, from: int)
    requires
        0 <= from <= s.len(),
    ensures
        from <= word_end(s, from) <= s.len(),
        from < s.len() && !is_space(s[from]) ==> from < word_end(s, from),
        forall|k: int| from <= k < word_end(s, from) ==> !is_space(#[trigger] s[k]),
        word_end(s, from) < s.len() ==> is_space(s[word_end(s, from)]),
    decreases s.len() - from,
{
    if from < s.len() && !is_space(s[from]) {
        lemma_word_end_bounds(s, from + 1);
    }
}

/// The words of `s` from index `from` on: the maximal runs of characters
/// other than whitespace, in the order in which they stand.
pub open spec fn words_from(s: Seq<char>, from: int) -> Seq<Seq<char>>
    decreases s.len() - from,
    via words_from_decreases
{
    if from < 0 || from >= s.len() {
        Seq::empty()
    } else if is_space(s[from]) {
        words_from(s, from + 1)
    } else {
        seq![s.subrange(from, word_end(s, from))] + words_from(s, word_end(s, from))
    }
}

#[via_fn]
proof fn words_from_decreases(s: Seq<char>, from: int) {
    if 0 <= from < s.len() {
        lemma_word_end_bounds(s, from);
    }
}

/// The words of a query.
pub open spec fn words_of(s: Seq<char>) -> Seq<Seq<char>> {
    words_from(s, 0)
}

/// No word is empty and no word holds whitespace.
pub proof fn lemma_words_are_words(s: Seq<char>, from: int)
    requires
        0 <= from <= s.len(),
    ensures
        forall|i: int|
            0 <= i < words_from(s, from).len() ==> (#[trigger] words_from(s, from)[i]).len() > 0,
        forall|i: int, k: int|
            0 <= i < words_from(s, from).len() && 0 <= k < words_from(s, from)[i].len()
                ==> !is_space(#[trigger] words_from(s, from)[i][k]),
    decreases s.len() - from,
{
    if from >= s.len() {
        assert(words_from(s, from).len() == 0);
    } else if is_space(s[from]) {
        lemma_words_are_words(s, from + 1);
        assert(words_from(s, from) == words_from(s, from + 1));
    } else {
        lemma_word_end_bounds(s, from);
        let end = word_end(s, from);
        lemma_words_are_words(s, end);
        let head = s.subrange(from, end);
        let rest = words_from(s, end);
        assert(words_from(s, from) == seq![head] + rest);
        assert forall|i: int| 0 <= i < words_from(s, from).len() implies (
        #[trigger] words_from(s, from)[i]).len() > 0 by {
            if i > 0 {
                assert(words_from(s, from)[i] == rest[i - 1]);
            }
        }
        assert forall|i: int, k: int|
            0 <= i < words_from(s, from).len() && 0 <= k < words_from(s, from)[i].len() implies !is_space(
            #[trigger] words_from(s, from)[i][k]) by {
            if i > 0 {
                assert(words_from(s, from)[i] == rest[i - 1]);
            } else {
                assert(head[k] == s[from + k]);
            }
        }
    }
}

/// Substrings to look for in tags.
#[derive(Clone, Debug, PartialEq, Eq)]
pub struct SearchQueryTags {
    pub tag_substrings: Vec<String>,
}

/// Substrings to look for in attribute keys, in attribute values, and in
/// both at once.
#[derive(Clone, Debug, PartialEq, Eq)]
pub struct SearchQueryAttributes {
    pub key_substrings: Vec<String>,
    pub value_substrings: Vec<String>,
    pub kv_substrings: Vec<(String, String)>,
}

/// What a record or a link has to hold to be found.
#[derive(Clone, Debug, PartialEq, Eq)]
pub struct SearchQueryRecordsAndLinks {
    pub tags: SearchQueryTags,
    pub attributes: SearchQueryAttributes,
    pub text_substrings: Vec<String>,
}

/// A parsed search query.
#[derive(Clone, Debug, PartialEq, Eq)]
pub enum SearchQuery {
    Tags(SearchQueryTags),
    Attributes(SearchQueryAttributes),
    RecordsAndLinks(SearchQueryRecordsAndLinks),
}

/// Mathematical model of [`SearchQueryTags`].
pub struct SearchQueryTagsView {
    pub tag_substrings: Seq<Seq<char>>,
}

/// Mathematical model of [`SearchQueryAttributes`].
pub struct SearchQueryAttributesView {
    pub key_substrings: Seq<Seq<char>>,
    pub value_substrings: Seq<Seq<char>>,
    pub kv_substrings: Seq<(Seq<char>, Seq<char>)>,
}

/// Mathematical model of [`SearchQueryRecordsAndLinks`].
pub struct SearchQueryRecordsAndLinksView {
    pub tags: SearchQueryTagsView,
    pub attributes: SearchQueryAttributesView,
    pub text_substrings: Seq<Seq<char>>,
}

/// Mathematical model of [`SearchQuery`].
pub enum SearchQueryView {
    Tags(SearchQueryTagsView),
    Attributes(SearchQueryAttributesView),
    RecordsAndLinks(SearchQueryRecordsAndLinksView),
}

impl View for SearchQueryTags {
    type V = SearchQueryTagsView;

    open spec fn view(&self) -> SearchQueryTagsView {
        SearchQueryTagsView { tag_substrings: self.tag_substrings.deep_view() }
    }
}

impl View for SearchQueryAttributes {
    type V = SearchQueryAttributesView;

    open spec fn view(&self) -> SearchQueryAttributesView {
        SearchQueryAttributesView {
            key_substrings: self.key_substrings.deep_view(),
            value_substrings: self.value_substrings.deep_view(),
            kv_substrings: self.kv_substrings.deep_view(),
        }
    }
}

impl View for SearchQueryRecordsAndLinks {
    type V = SearchQueryRecordsAndLinksView;

    open spec fn view(&self) -> SearchQueryRecordsAndLinksView {
        SearchQueryRecordsAndLinksView {
            tags: self.tags@,
            attributes: self.attributes@,
            text_substrings: self.text_substrings.deep_view(),
        }
    }
}

impl View for SearchQuery {
    type V = SearchQueryView;

    open spec fn view(&self) -> SearchQueryView {
        match self {
            SearchQuery::Tags(tags) => SearchQueryView::Tags(tags@),
            SearchQuery::Attributes(attributes) => SearchQueryView::Attributes(attributes@),
            SearchQuery::RecordsAndLinks(both) => SearchQueryView::RecordsAndLinks(both@),
        }
    }
}

/// The three forms of a query.
#[derive(Clone, Copy, Debug, PartialEq, Eq, Structural)]
pub enum QueryKind {
    Tags,
    Attributes,
    RecordsAndLinks,
}

/// The word that asks for tags.
pub open spec fn tags_word() -> Seq<char> {
    seq!['#']
}

/// The word that asks for attributes.
pub open spec fn attributes_word() -> Seq<char> {
    seq!['#', '=']
}

/// The form of the query with these words. The word `#` takes precedence
/// over the word `#=`.
pub open spec fn kind_of(words: Seq<Seq<char>>) -> QueryKind {
    if words.contains(tags_word()) {
        QueryKind::Tags
    } else if words.contains(attributes_word()) {
        QueryKind::Attributes
    } else {
        QueryKind::RecordsAndLinks
    }
}

/// The index of the first `=` of `w` at or after `from`, or the length of `w`.
pub open spec fn equals_at(w: Seq<char>, from: int) -> int
    decreases w.len() - from,
{
    if 0 <= from < w.len() && w[from] != '=' {
        equals_at(w, from + 1)
    } else {
        from
    }
}

pub proof fn lemma_equals_at_bounds(w: Seq<char>, from: int)
    requires
        0 <= from <= w.len(),
    ensures
        from <= equals_at(w, from) <= w.len(),
        forall|k: int| from <= k < equals_at(w, from) ==> #[trigger] w[k] != '=',
        equals_at(w, from) < w.len() ==> w[equals_at(w, from)] == '=',
    decreases w.len() - from,
{
    if from < w.len() && w[from] != '=' {
        lemma_equals_at_bounds(w, from + 1);
    }
}

impl SearchQueryRecordsAndLinksView {
    /// No filter at all.
    pub open spec fn none() -> Self {
        SearchQueryRecordsAndLinksView {
            tags: SearchQueryTagsView { tag_substrings: Seq::empty() },
            attributes: SearchQueryAttributesView {
                key_substrings: Seq::empty(),
                value_substrings: Seq::empty(),
                kv_substrings: Seq::empty(),
            },
            text_substrings: Seq::empty(),
        }
    }

    /// The filters of `self` followed by the filters of `more`, list by list.
    pub open spec fn concat(self, more: Self) -> Self {
        SearchQueryRecordsAndLinksView {
            tags: SearchQueryTagsView {
                tag_substrings: self.tags.tag_substrings + more.tags.tag_substrings,
            },
            attributes: SearchQueryAttributesView {
                key_substrings: self.attributes.key_substrings + more.attributes.key_substrings,
                value_substrings: self.attributes.value_substrings
                    + more.attributes.value_substrings,
                kv_substrings: self.attributes.kv_substrings + more.attributes.kv_substrings,
            },
            text_substrings: self.text_substrings + more.text_substrings,
        }
    }

    pub open spec fn tag(t: Seq<char>) -> Self {
        SearchQueryRecordsAndLinksView {
            tags: SearchQueryTagsView { tag_substrings: seq![t] },
            ..Self::none()
        }
    }

    pub open spec fn key(k: Seq<char>) -> Self {
        SearchQueryRecordsAndLinksView {
            attributes: SearchQueryAttributesView {
                key_substrings: seq![k],
                ..Self::none().attributes
            },
            ..Self::none()
        }
    }

    pub open spec fn value(v: Seq<char>) -> Self {
        SearchQueryRecordsAndLinksView {
            attributes: SearchQueryAttributesView {
                value_substrings: seq![v],
                ..Self::none().attributes
            },
            ..Self::none()
        }
    }

    pub open spec fn pair(k: Seq<char>, v: Seq<char>) -> Self {
        SearchQueryRecordsAndLinksView {
            attributes: SearchQueryAttributesView {
                kv_substrings: seq![(k, v)],
                ..Self::none().attributes
            },
            ..Self::none()
        }
    }

    pub open spec fn text(t: Seq<char>) -> Self {
        SearchQueryRecordsAndLinksView { text_substrings: seq![t], ..Self::none() }
    }
}

/// The filters that a word without its leading `#` stands for.
///
/// A word with a `=` is split on the first one into a key and a value. With
/// an empty value it is a filter on keys, with an empty key a filter on
/// values, and otherwise a filter on a key and its value. A word without a
/// `=` is a filter on tags where `plain_is_tag` holds, and else a filter on
/// keys and a filter on values.
pub open spec fn split_filters(w: Seq<char>, plain_is_tag: bool) -> SearchQueryRecordsAndLinksView {
    let at = equals_at(w, 0);
    if at < w.len() {
        let k = w.subrange(0, at);
        let v = w.subrange(at + 1, w.len() as int);
        if v.len() == 0 {
            SearchQueryRecordsAndLinksView::key(k)
        } else if k.len() == 0 {
            SearchQueryRecordsAndLinksView::value(v)
        } else {
            SearchQueryRecordsAndLinksView::pair(k, v)
        }
    } else if plain_is_tag {
        SearchQueryRecordsAndLinksView::tag(w)
    } else {
        SearchQueryRecordsAndLinksView::key(w).concat(SearchQueryRecordsAndLinksView::value(w))
    }
}

/// Whether `word` starts with `#`.
pub open spec fn is_hashed(word: Seq<char>) -> bool {
    word.len() > 0 && word[0] == '#'
}

/// `word` without one leading `#`, if it has one.
pub open spec fn strip_hash(word: Seq<char>) -> Seq<char> {
    if is_hashed(word) {
        word.subrange(1, word.len() as int)
    } else {
        word
    }
}

/// The filters that one word adds to a query of the given form.
pub open spec fn word_filters(kind: QueryKind, word: Seq<char>) -> SearchQueryRecordsAndLinksView {
    let bare = strip_hash(word);
    match kind {
        QueryKind::Tags => if word.len() == 0 || word == tags_word() {
            SearchQueryRecordsAndLinksView::none()
        } else {
            SearchQueryRecordsAndLinksView::tag(bare)
        },
        QueryKind::Attributes => if bare.len() == 0 || bare == seq!['='] {
            SearchQueryRecordsAndLinksView::none()
        } else {
            split_filters(bare, false)
        },
        QueryKind::RecordsAndLinks => if is_hashed(word) {
            split_filters(bare, true)
        } else {
            SearchQueryRecordsAndLinksView::text(word)
        },
    }
}

/// The filters of all the words, in the order of the words.
pub open spec fn gather(kind: QueryKind, words: Seq<Seq<char>>) -> SearchQueryRecordsAndLinksView
    decreases words.len(),
{
    if words.len() == 0 {
        SearchQueryRecordsAndLinksView::none()
    } else {
        gather(kind, words.drop_last()).concat(word_filters(kind, words.last()))
    }
}

/// What a query string means.
pub open spec fn parse_query(query: Seq<char>) -> SearchQueryView {
    let words = words_of(query);
    let kind = kind_of(words);
    let filters = gather(kind, words);
    match kind {
        QueryKind::Tags => SearchQueryView::Tags(filters.tags),
        QueryKind::Attributes => SearchQueryView::Attributes(filters.attributes),
        QueryKind::RecordsAndLinks => SearchQueryView::RecordsAndLinks(filters),
    }
}

fn is_space_char(c: char) -> (r: bool)
    ensures
        r == is_space(c),
{
    c == ' ' || c == '\t' || c == '\n' || c == '\x0C' || c == '\r'
}

/// Appends `s` to `acc`.
fn push_text(acc: &mut Vec<String>, s: String)
    ensures
        final(acc).deep_view() == old(acc).deep_view().push(s@),
{
    acc.push(s);
    assert(acc.deep_view() =~= old(acc).deep_view().push(s@));
}

/// Two sets of filters with the same five lists are the same.
proof fn lemma_same_filters(a: SearchQueryRecordsAndLinksView, b: SearchQueryRecordsAndLinksView)
    requires
        a.tags.tag_substrings =~= b.tags.tag_substrings,
        a.attributes.key_substrings =~= b.attributes.key_substrings,
        a.attributes.value_substrings =~= b.attributes.value_substrings,
        a.attributes.kv_substrings =~= b.attributes.kv_substrings,
        a.text_substrings =~= b.text_substrings,
    ensures
        a == b,
{
}

/// Appends the pair of `k` and `v` to `acc`.
fn push_pair(acc: &mut Vec<(String, String)>, k: String, v: String)
    ensures
        final(acc).deep_view() == old(acc).deep_view().push((k@, v@)),
{
    acc.push((k, v));
    assert(acc.deep_view() =~= old(acc).deep_view().push((k@, v@)));
}

/// The form of the query with these words.
fn query_kind(words: &Vec<String>) -> (kind: QueryKind)
    ensures
        kind == kind_of(words.deep_view()),
{
    let ghost all = words.deep_view();
    let n: usize = words.len();
    let mut asks_tags: bool = false;
    let mut asks_attributes: bool = false;
    let mut i: usize = 0;
    while i < n
        invariant
            n == words.len(),
            all == words.deep_view(),
            i <= n,
            asks_tags == all.take(i as int).contains(tags_word()),
            asks_attributes == all.take(i as int).contains(attributes_word()),
        decreases n - i,
    {
        let chars = chars_of(words[i].as_str());
        let ghost word = all[i as int];
        assert(chars@ == word);
        let is_tags: bool = chars.len() == 1 && chars[0] == '#';
        let is_attributes: bool = chars.len() == 2 && chars[0] == '#' && chars[1] == '=';
        proof {
            assert(is_tags == (word == tags_word())) by {
                if is_tags {
                    assert(word =~= tags_word());
                }
            }
            assert(is_attributes == (word == attributes_word())) by {
                if is_attributes {
                    assert(word =~= attributes_word());
                }
            }
            assert(all.take(i + 1) =~= all.take(i as int).push(word));
            assert(all.take(i as int).push(word).last() == word);
            assert forall|w: Seq<char>|
                all.take(i as int).push(word).contains(w) == (all.take(i as int).contains(w) || w
                    == word) by {
                let shorter = all.take(i as int);
                let longer = shorter.push(word);
                if longer.contains(w) {
                    let k = choose|k: int| 0 <= k < longer.len() && longer[k] == w;
                    if k < shorter.len() {
                        assert(shorter[k] == w);
                    }
                }
                if shorter.contains(w) {
                    let k = choose|k: int| 0 <= k < shorter.len() && shorter[k] == w;
                    assert(longer[k] == w);
                }
                if w == word {
                    assert(longer[i as int] == w);
                }
            }
        }
        asks_tags = asks_tags || is_tags;
        asks_attributes = asks_attributes || is_attributes;
        i += 1;
    }
    assert(all.take(n as int) =~= all);
    if asks_tags {
        QueryKind::Tags
    } else if asks_attributes {
        QueryKind::Attributes
    } else {
        QueryKind::RecordsAndLinks
    }
}

impl SearchQueryRecordsAndLinks {
    /// The query without any filter.
    pub fn none() -> (q: SearchQueryRecordsAndLinks)
        ensures
            q@ == SearchQueryRecordsAndLinksView::none(),
    {
        let q = SearchQueryRecordsAndLinks {
            tags: SearchQueryTags { tag_substrings: Vec::new() },
            attributes: SearchQueryAttributes {
                key_substrings: Vec::new(),
                value_substrings: Vec::new(),
                kv_substrings: Vec::new(),
            },
            text_substrings: Vec::new(),
        };
        proof {
            lemma_same_filters(q@, SearchQueryRecordsAndLinksView::none());
        }
        q
    }
}

/// Adds to `acc` the filters that `word` from index `from` on stands for.
fn add_split(
    word: &str,
    chars: &Vec<char>,
    from: usize,
    plain_is_tag: bool,
    acc: &mut SearchQueryRecordsAndLinks,
)
    requires
        chars@ == word@,
        from <= chars@.len(),
    ensures
        final(acc)@ == old(acc)@.concat(
            split_filters(word@.subrange(from as int, word@.len() as int), plain_is_tag),
        ),
{
    let n: usize = chars.len();
    let ghost w = word@.subrange(from as int, n as int);
    let mut at: usize = from;
    while at < n && chars[at] != '='
        invariant
            chars@ == word@,
            n == chars@.len(),
            from <= at <= n,
            w == word@.subrange(from as int, n as int),
            equals_at(w, at - from) == equals_at(w, 0),
        decreases n - at,
    {
        assert(w[at - from] == chars@[at as int]);
        at += 1;
    }
    proof {
        if at < n {
            assert(w[at - from] == chars@[at as int]);
        }
        assert(equals_at(w, 0) == at - from);
    }
    if at < n {
        let key = word.substring_char(from, at).to_owned();
        let value = word.substring_char(at + 1, n).to_owned();
        proof {
            assert(key@ =~= w.subrange(0, at - from));
            assert(value@ =~= w.subrange(at - from + 1, w.len() as int));
        }
        if at + 1 == n {
            push_text(&mut acc.attributes.key_substrings, key);
        } else if at == from {
            push_text(&mut acc.attributes.value_substrings, value);
        } else {
            push_pair(&mut acc.attributes.kv_substrings, key, value);
        }
    } else if plain_is_tag {
        let tag = word.substring_char(from, n).to_owned();
        push_text(&mut acc.tags.tag_substrings, tag);
    } else {
        let key = word.substring_char(from, n).to_owned();
        let value = word.substring_char(from, n).to_owned();
        push_text(&mut acc.attributes.key_substrings, key);
        push_text(&mut acc.attributes.value_substrings, value);
    }
    proof {
        lemma_same_filters(acc@, old(acc)@.concat(split_filters(w, plain_is_tag)));
    }
}

/// Adds to `acc` the filters that `word` adds to a query of the given form.
fn add_word(kind: QueryKind, word: &str, acc: &mut SearchQueryRecordsAndLinks)
    ensures
        final(acc)@ == old(acc)@.concat(word_filters(kind, word@)),
{
    let chars = chars_of(word);
    let n: usize = chars.len();
    let hashed: bool = n > 0 && chars[0] == '#';
    let from: usize = if hashed {
        1
    } else {
        0
    };
    let ghost bare = strip_hash(word@);
    assert(bare =~= word@.subrange(from as int, n as int));
    match kind {
        QueryKind::Tags => {
            if n == 0 || (n == 1 && hashed) {
                proof {
                    if n == 1 {
                        assert(word@ =~= tags_word());
                    }
                }
            } else {
                let tag = word.substring_char(from, n).to_owned();
                push_text(&mut acc.tags.tag_substrings, tag);
            }
        },
        QueryKind::Attributes => {
            if from == n || (from + 1 == n && chars[from] == '=') {
                proof {
                    if from < n {
                        assert(bare =~= seq!['=']);
                    }
                }
            } else {
                proof {
                    if bare.len() == 1 {
                        assert(bare[0] == chars@[from as int]);
                    }
                }
                add_split(word, &chars, from, false, acc);
            }
        },
        QueryKind::RecordsAndLinks => {
            if hashed {
                add_split(word, &chars, from, true, acc);
            } else {
                let text = word.to_owned();
                push_text(&mut acc.text_substrings, text);
            }
        },
    }
    proof {
        lemma_same_filters(acc@, old(acc)@.concat(word_filters(kind, word@)));
    }
}

impl SearchQuery {
    /// Parses a query.
    ///
    /// The query is split into words on ASCII whitespace. If one of the
    /// words is `#`, the query asks for tags: every other word, less one
    /// leading `#`, is a substring to find in a tag. Else, if one of the
    /// words is `#=`, the query asks for attributes: every other word, less
    /// one leading `#`, is split on its first `=` into substrings to find in
    /// a key and in a value. Else the query asks for records and links:
    /// a word that starts with `#` is a filter on attributes if it holds a
    /// `=` and a filter on tags if not, and every other word is a substring
    /// to find in the text of a record.
    pub fn new(query: &str) -> (q: SearchQuery)
        ensures
            q@ == parse_query(query@),
    {
        let words = split_words(query);
        let kind = query_kind(&words);
        let ghost all = words.deep_view();
        let n: usize = words.len();
        let mut acc = SearchQueryRecordsAndLinks::none();
        let mut i: usize = 0;
        while i < n
            invariant
                n == words.len(),
                all == words.deep_view(),
                i <= n,
                acc@ == gather(kind, all.take(i as int)),
            decreases n - i,
        {
            add_word(kind, words[i].as_str(), &mut acc);
            proof {
                assert(all.take(i + 1).drop_last() =~= all.take(i as int));
                assert(all.take(i + 1).last() == all[i as int]);
            }
            i += 1;
        }
        assert(all.take(n as int) =~= all);
        match kind {
            QueryKind::Tags => SearchQuery::Tags(acc.tags),
            QueryKind::Attributes => SearchQuery::Attributes(acc.attributes),
            QueryKind::RecordsAndLinks => SearchQuery::RecordsAndLinks(acc),
        }
    }
}

/// Splits a query into its words.
pub fn split_words(query: &str) -> (words: Vec<String>)
    ensures
        words.deep_view() == words_of(query@),
{
    let chars = chars_of(query);
    let n: usize = chars.len();
    let mut words: Vec<String> = Vec::new();
    let mut i: usize = 0;
    while i < n
        invariant
            chars@ == query@,
            n == chars@.len(),
            i <= n,
            words.deep_view() + words_from(query@, i as int) == words_of(query@),
        decreases n - i,
    {
        if is_space_char(chars[i]) {
            i += 1;
        } else {
            let start: usize = i;
            while i < n && !is_space_char(chars[i])
                invariant
                    chars@ == query@,
                    n == chars@.len(),
                    start <= i <= n,
                    word_end(query@, i as int) == word_end(query@, start as int),
                decreases n - i,
            {
                i += 1;
            }
            proof {
                lemma_word_end_bounds(query@, start as int);
            }
            let word = query.substring_char(start, i).to_owned();
            let ghost before = words.deep_view();
            push_text(&mut words, word);
            assert(before.push(word@) + words_from(query@, i as int) =~= before + words_from(
                query@,
                start as int,
            ));
        }
    }
    assert(words.deep_view() + Seq::<Seq<char>>::empty() =~= words.deep_view());
    words
}

/// One of `needles` is a substring of `hay`.
pub open spec fn any_in(needles: Seq<Seq<char>>, hay: Seq<char>) -> bool {
    exists|i: int| 0 <= i < needles.len() && text_contains(hay, #[trigger] needles[i])
}

/// `needle` is a substring of one of `hays`.
pub open spec fn in_any(needle: Seq<char>, hays: Seq<Seq<char>>) -> bool {
    exists|j: int| 0 <= j < hays.len() && text_contains(#[trigger] hays[j], needle)
}

/// One of the attributes has `key` in its key and `value` in its value.
pub open spec fn pair_in_any(
    key: Seq<char>,
    value: Seq<char>,
    attributes: Seq<(Seq<char>, Seq<char>)>,
) -> bool {
    exists|j: int|
        0 <= j < attributes.len() && text_contains((#[trigger] attributes[j]).0, key)
            && text_contains(attributes[j].1, value)
}

impl SearchQueryTagsView {
    pub open spec fn is_empty(self) -> bool {
        self.tag_substrings.len() == 0
    }

    /// One of the substrings occurs in `tag`.
    pub open spec fn check(self, tag: Seq<char>) -> bool {
        any_in(self.tag_substrings, tag)
    }

    /// A search for tags finds `tag`: the query is empty, or one of its
    /// substrings occurs in the tag.
    pub open spec fn selects(self, tag: Seq<char>) -> bool {
        self.is_empty() || self.check(tag)
    }

    /// Every substring occurs in one of `tags`.
    pub open spec fn all_found_in(self, tags: Seq<Seq<char>>) -> bool {
        forall|i: int|
            0 <= i < self.tag_substrings.len() ==> in_any(#[trigger] self.tag_substrings[i], tags)
    }
}

impl SearchQueryAttributesView {
    pub open spec fn is_empty(self) -> bool {
        &&& self.key_substrings.len() == 0
        &&& self.value_substrings.len() == 0
        &&& self.kv_substrings.len() == 0
    }

    /// One of the filters on a key and its value holds of the attribute.
    pub open spec fn check_pairs(self, key: Seq<char>, value: Seq<char>) -> bool {
        exists|i: int|
            0 <= i < self.kv_substrings.len() && text_contains(
                key,
                (#[trigger] self.kv_substrings[i]).0,
            ) && text_contains(value, self.kv_substrings[i].1)
    }

    /// One of the filters holds of the attribute.
    pub open spec fn check(self, key: Seq<char>, value: Seq<char>) -> bool {
        ||| self.check_pairs(key, value)
        ||| any_in(self.key_substrings, key)
        ||| any_in(self.value_substrings, value)
    }

    /// A search for attributes finds the attribute: the query is empty, or
    /// one of its filters holds of the attribute.
    pub open spec fn selects(self, key: Seq<char>, value: Seq<char>) -> bool {
        self.is_empty() || self.check(key, value)
    }

    /// Every filter holds of one of the attributes.
    pub open spec fn all_found_in(self, attributes: Seq<(Seq<char>, Seq<char>)>) -> bool {
        &&& forall|i: int|
            0 <= i < self.key_substrings.len() ==> in_any(
                #[trigger] self.key_substrings[i],
                keys_of(attributes),
            )
        &&& forall|i: int|
            0 <= i < self.value_substrings.len() ==> in_any(
                #[trigger] self.value_substrings[i],
                values_of(attributes),
            )
        &&& forall|i: int|
            0 <= i < self.kv_substrings.len() ==> pair_in_any(
                (#[trigger] self.kv_substrings[i]).0,
                self.kv_substrings[i].1,
                attributes,
            )
    }
}

impl SearchQueryRecordsAndLinksView {
    /// The query holds no filter of any kind.
    pub open spec fn is_empty(self) -> bool {
        &&& self.tags.is_empty()
        &&& self.attributes.is_empty()
        &&& self.text_substrings.len() == 0
    }

    /// Every filter on tags and every filter on attributes holds.
    pub open spec fn holds_of(self, ta: TagsAndAttributesView) -> bool {
        &&& self.tags.all_found_in(ta.tags)
        &&& self.attributes.all_found_in(ta.attributes)
    }

    /// Every text substring occurs in the text.
    pub open spec fn all_text_in(self, text: Seq<char>) -> bool {
        forall|i: int|
            0 <= i < self.text_substrings.len() ==> text_contains(
                text,
                #[trigger] self.text_substrings[i],
            )
    }

    /// The condition on the text of a record. It holds of a record without
    /// payload and of one whose payload is not text.
    pub open spec fn text_found_in(self, data: Option<Seq<u8>>) -> bool {
        match data {
            None => true,
            Some(bytes) => !valid_utf8(bytes) || self.all_text_in(decode_utf8(bytes)),
        }
    }

    /// The query finds the record. An empty query finds nothing.
    pub open spec fn matches_record(self, record: RecordView) -> bool {
        &&& !self.is_empty()
        &&& self.holds_of(record.ta)
        &&& self.text_found_in(record.data)
    }

    /// The query finds the link. An empty query finds nothing, and the text
    /// substrings say nothing of a link.
    pub open spec fn matches_link(self, link: LinkView) -> bool {
        &&& !self.is_empty()
        &&& self.holds_of(link.ta)
    }
}

/// Whether one of `needles` is a substring of `hay`.
fn any_contained(needles: &Vec<String>, hay: &str) -> (r: bool)
    ensures
        r == any_in(needles.deep_view(), hay@),
{
    let n: usize = needles.len();
    let mut i: usize = 0;
    while i < n
        invariant
            n == needles.len(),
            i <= n,
            forall|k: int| 0 <= k < i ==> !text_contains(hay@, #[trigger] needles.deep_view()[k]),
        decreases n - i,
    {
        if str_contains(hay, needles[i].as_str()) {
            assert(text_contains(hay@, needles.deep_view()[i as int]));
            return true;
        }
        i += 1;
    }
    false
}

/// Whether `needle` is a substring of one of `hays`.
fn contained_in_any(needle: &str, hays: &Vec<String>) -> (r: bool)
    ensures
        r == in_any(needle@, hays.deep_view()),
{
    let n: usize = hays.len();
    let mut j: usize = 0;
    while j < n
        invariant
            n == hays.len(),
            j <= n,
            forall|k: int| 0 <= k < j ==> !text_contains(#[trigger] hays.deep_view()[k], needle@),
        decreases n - j,
    {
        if str_contains(hays[j].as_str(), needle) {
            assert(text_contains(hays.deep_view()[j as int], needle@));
            return true;
        }
        j += 1;
    }
    false
}

/// The empty text is a substring of every text.
pub proof fn lemma_empty_text_is_contained(hay: Seq<char>)
    ensures
        text_contains(hay, Seq::<char>::empty()),
{
    let none = Seq::<char>::empty();
    assert(hay.subrange(0int, 0int + none.len()) =~= none);
}

/// A filter on a key is a filter on a key and its value with the empty
/// value, which every value holds.
pub proof fn lemma_key_filter_is_pair_filter(key: Seq<char>, attributes: Seq<(Seq<char>, Seq<char>)>)
    ensures
        pair_in_any(key, Seq::<char>::empty(), attributes) == in_any(key, keys_of(attributes)),
{
    if pair_in_any(key, Seq::<char>::empty(), attributes) {
        let j = choose|j: int|
            0 <= j < attributes.len() && text_contains((#[trigger] attributes[j]).0, key)
                && text_contains(attributes[j].1, Seq::<char>::empty());
        assert(text_contains(keys_of(attributes)[j], key));
    }
    if in_any(key, keys_of(attributes)) {
        let j = choose|j: int|
            0 <= j < keys_of(attributes).len() && text_contains(
                #[trigger] keys_of(attributes)[j],
                key,
            );
        lemma_empty_text_is_contained(attributes[j].1);
        assert(text_contains(attributes[j].0, key));
    }
}

/// A filter on a value is a filter on a key and its value with the empty
/// key, which every key holds.
pub proof fn lemma_value_filter_is_pair_filter(
    value: Seq<char>,
    attributes: Seq<(Seq<char>, Seq<char>)>,
)
    ensures
        pair_in_any(Seq::<char>::empty(), value, attributes) == in_any(
            value,
            values_of(attributes),
        ),
{
    if pair_in_any(Seq::<char>::empty(), value, attributes) {
        let j = choose|j: int|
            0 <= j < attributes.len() && text_contains(
                (#[trigger] attributes[j]).0,
                Seq::<char>::empty(),
            ) && text_contains(attributes[j].1, value);
        assert(text_contains(values_of(attributes)[j], value));
    }
    if in_any(value, values_of(attributes)) {
        let j = choose|j: int|
            0 <= j < values_of(attributes).len() && text_contains(
                #[trigger] values_of(attributes)[j],
                value,
            );
        lemma_empty_text_is_contained(attributes[j].0);
        assert(text_contains(attributes[j].1, value));
    }
}

/// Whether one of the attributes has `key` in its key and `value` in its
/// value.
fn attribute_found(key: &str, value: &str, attributes: &Vec<(String, String)>) -> (r: bool)
    ensures
        r == pair_in_any(key@, value@, attributes.deep_view()),
{
    let ghost all = attributes.deep_view();
    let n: usize = attributes.len();
    let mut j: usize = 0;
    while j < n
        invariant
            n == attributes.len(),
            all == attributes.deep_view(),
            j <= n,
            forall|m: int|
                0 <= m < j ==> !(text_contains((#[trigger] all[m]).0, key@) && text_contains(
                    all[m].1,
                    value@,
                )),
        decreases n - j,
    {
        proof {
            assert(all[j as int].0 == attributes@[j as int].0@);
            assert(all[j as int].1 == attributes@[j as int].1@);
        }
        if str_contains(attributes[j].0.as_str(), key) && str_contains(
            attributes[j].1.as_str(),
            value,
        ) {
            return true;
        }
        j += 1;
    }
    false
}

impl SearchQueryTags {
    /// Whether the query lists no substring.
    pub fn is_empty(&self) -> (r: bool)
        ensures
            r == self@.is_empty(),
    {
        self.tag_substrings.len() == 0
    }

    /// Whether one of the substrings occurs in `tag`.
    pub fn check(&self, tag: &str) -> (r: bool)
        ensures
            r == self@.check(tag@),
    {
        any_contained(&self.tag_substrings, tag)
    }

    /// Whether every substring occurs in one of `tags`.
    pub fn all_found_in(&self, tags: &Vec<String>) -> (r: bool)
        ensures
            r == self@.all_found_in(tags.deep_view()),
    {
        let n: usize = self.tag_substrings.len();
        let mut i: usize = 0;
        while i < n
            invariant
                n == self.tag_substrings.len(),
                i <= n,
                forall|k: int| 0 <= k < i ==> in_any(#[trigger] self@.tag_substrings[k], tags.deep_view()),
            decreases n - i,
        {
            if !contained_in_any(self.tag_substrings[i].as_str(), tags) {
                assert(!in_any(self@.tag_substrings[i as int], tags.deep_view()));
                return false;
            }
            i += 1;
        }
        true
    }
}

impl SearchQueryAttributes {
    /// Whether the query lists no filter.
    pub fn is_empty(&self) -> (r: bool)
        ensures
            r == self@.is_empty(),
    {
        self.key_substrings.len() == 0 && self.value_substrings.len() == 0
            && self.kv_substrings.len() == 0
    }

    /// Whether one of the filters holds of the attribute with this key and
    /// this value.
    pub fn check(&self, key: &str, value: &str) -> (r: bool)
        ensures
            r == self@.check(key@, value@),
    {
        let n: usize = self.kv_substrings.len();
        let mut i: usize = 0;
        while i < n
            invariant
                n == self.kv_substrings.len(),
                i <= n,
                forall|k: int|
                    0 <= k < i ==> !(text_contains(key@, (#[trigger] self@.kv_substrings[k]).0)
                        && text_contains(value@, self@.kv_substrings[k].1)),
            decreases n - i,
        {
            if str_contains(key, self.kv_substrings[i].0.as_str()) && str_contains(
                value,
                self.kv_substrings[i].1.as_str(),
            ) {
                assert(self@.kv_substrings[i as int].0 == self.kv_substrings@[i as int].0@);
                assert(self@.kv_substrings[i as int].1 == self.kv_substrings@[i as int].1@);
                return true;
            }
            proof {
                assert(self@.kv_substrings[i as int].0 == self.kv_substrings@[i as int].0@);
                assert(self@.kv_substrings[i as int].1 == self.kv_substrings@[i as int].1@);
            }
            i += 1;
        }
        any_contained(&self.key_substrings, key) || any_contained(&self.value_substrings, value)
    }

    /// Whether every filter holds of one of the attributes.
    pub fn all_found_in(&self, attributes: &Vec<(String, String)>) -> (r: bool)
        ensures
            r == self@.all_found_in(attributes.deep_view()),
    {
        let ghost all = attributes.deep_view();
        let nk: usize = self.key_substrings.len();
        let mut i: usize = 0;
        while i < nk
            invariant
                nk == self.key_substrings.len(),
                all == attributes.deep_view(),
                i <= nk,
                forall|k: int|
                    0 <= k < i ==> in_any(#[trigger] self@.key_substrings[k], keys_of(all)),
            decreases nk - i,
        {
            proof {
                reveal_strlit("");
                assert(""@ =~= Seq::<char>::empty());
                lemma_key_filter_is_pair_filter(self@.key_substrings[i as int], all);
            }
            if !attribute_found(self.key_substrings[i].as_str(), "", attributes) {
                return false;
            }
            i += 1;
        }
        let nv: usize = self.value_substrings.len();
        let mut i: usize = 0;
        while i < nv
            invariant
                nv == self.value_substrings.len(),
                all == attributes.deep_view(),
                i <= nv,
                forall|k: int|
                    0 <= k < i ==> in_any(#[trigger] self@.value_substrings[k], values_of(all)),
            decreases nv - i,
        {
            proof {
                reveal_strlit("");
                assert(""@ =~= Seq::<char>::empty());
                lemma_value_filter_is_pair_filter(self@.value_substrings[i as int], all);
            }
            if !attribute_found("", self.value_substrings[i].as_str(), attributes) {
                return false;
            }
            i += 1;
        }
        let np: usize = self.kv_substrings.len();
        let mut i: usize = 0;
        while i < np
            invariant
                np == self.kv_substrings.len(),
                all == attributes.deep_view(),
                i <= np,
                forall|k: int|
                    0 <= k < i ==> pair_in_any(
                        (#[trigger] self@.kv_substrings[k]).0,
                        self@.kv_substrings[k].1,
                        all,
                    ),
            decreases np - i,
        {
            proof {
                assert(self@.kv_substrings[i as int].0 == self.kv_substrings@[i as int].0@);
                assert(self@.kv_substrings[i as int].1 == self.kv_substrings@[i as int].1@);
            }
            if !attribute_found(
                self.kv_substrings[i].0.as_str(),
                self.kv_substrings[i].1.as_str(),
                attributes,
            ) {
                assert(!pair_in_any(
                    self@.kv_substrings[i as int].0,
                    self@.kv_substrings[i as int].1,
                    all,
                ));
                return false;
            }
            i += 1;
        }
        true
    }
}

impl SearchQueryRecordsAndLinks {
    /// Whether the query holds no filter of any kind.
    pub fn is_empty(&self) -> (r: bool)
        ensures
            r == self@.is_empty(),
    {
        self.tags.is_empty() && self.attributes.is_empty() && self.text_substrings.len() == 0
    }

    /// Whether every filter on tags and on attributes holds of `ta`.
    pub fn holds_of(&self, ta: &TagsAndAttributes) -> (r: bool)
        ensures
            r == self@.holds_of(ta@),
    {
        self.tags.all_found_in(&ta.tags) && self.attributes.all_found_in(&ta.attributes)
    }

    /// Whether the condition on the text holds of a record with this payload.
    pub fn text_found_in(&self, data: &Option<Vec<u8>>) -> (r: bool)
        ensures
            r == self@.text_found_in(data.deep_view()),
    {
        match data {
            None => true,
            Some(bytes) => {
                assert(data.deep_view() == Some(bytes@)) by {
                    assert(bytes.deep_view() =~= bytes@);
                }
                if !is_utf8(bytes.as_slice()) {
                    return true;
                }
                let n: usize = self.text_substrings.len();
                let mut i: usize = 0;
                while i < n
                    invariant
                        n == self.text_substrings.len(),
                        i <= n,
                        valid_utf8(bytes@),
                        data.deep_view() == Some(bytes@),
                        forall|k: int|
                            0 <= k < i ==> text_contains(
                                decode_utf8(bytes@),
                                #[trigger] self@.text_substrings[k],
                            ),
                    decreases n - i,
                {
                    proof {
                        lemma_payload_contains(bytes@, self@.text_substrings[i as int]);
                    }
                    if !slice_contains(
                        bytes.as_slice(),
                        self.text_substrings[i].as_str().as_bytes(),
                    ) {
                        assert(!text_contains(
                            decode_utf8(bytes@),
                            self@.text_substrings[i as int],
                        ));
                        return false;
                    }
                    i += 1;
                }
                true
            },
        }
    }

    /// Whether the query finds the record.
    ///
    /// It does if it holds a filter at all, every substring for tags occurs
    /// in a tag of the record, every filter on attributes holds of an
    /// attribute of the record, and every text substring occurs in the
    /// payload. The last condition holds of a record without payload and of
    /// one whose payload is not well-formed UTF-8.
    pub fn matches_record(&self, record: &Record) -> (r: bool)
        ensures
            r == self@.matches_record(record@),
    {
        !self.is_empty() && self.holds_of(&record.ta) && self.text_found_in(&record.data)
    }

    /// Whether the query finds the link: as for a record, but for the text.
    pub fn matches_link(&self, link: &Link) -> (r: bool)
        ensures
            r == self@.matches_link(link@),
    {
        !self.is_empty() && self.holds_of(&link.ta)
    }
}

} // verus!
