//! What a renderer exchanges with its clients: the parameters by which a
//! client names entities, and records in the form in which they travel.

use crate::entity::{EntityId, Record, TagsAndAttributes};
use crate::text::{chars_of, utf8_text};
use vstd::prelude::*;
use vstd::utf8::{decode_utf8, encode_utf8, valid_utf8};

verus! {

/// The parameters that name one entity.
#[derive(Clone, Debug, PartialEq, Eq)]
pub struct EntityPath {
    pub container_id: Option<u64>,
    pub id: u64,
}

/// The parameters that name some entities: their identifiers as decimal
/// numbers, separated by commas.
#[derive(Clone, Debug, PartialEq, Eq)]
pub struct EntitiesPath {
    pub container_id: Option<u64>,
    pub id: String,
}

/// The parameter that holds a search query.
#[derive(Clone, Debug, PartialEq, Eq)]
pub struct UriSearchQuery {
    pub q: String,
}

impl EntityPath {
    /// The identifier of the container, if one is named.
    pub fn get_container_id(&self) -> (r: Option<EntityId>)
        ensures
            r == match self.container_id {
                Some(id) => Some(EntityId { id: id as u128 }),
                None => None,
            },
    {
        match self.container_id {
            Some(id) => Some(EntityId::new(id as u128)),
            None => None,
        }
    }

    /// The identifier of the entity.
    pub fn get_id(&self) -> (r: EntityId)
        ensures
            r.id == self.id,
    {
        EntityId::new(self.id as u128)
    }
}

/// Whether `c` is a decimal digit.
pub open spec fn is_digit(c: char) -> bool {
    '0' <= c && c <= '9'
}

/// The number that a sequence of decimal digits stands for.
pub open spec fn decimal(digits: Seq<char>) -> nat
    decreases digits.len(),
{
    if digits.len() == 0 {
        0
    } else {
        decimal(digits.drop_last()) * 10 + (digits.last() as nat - '0' as nat) as nat
    }
}

/// The digits of a decimal number: the text without one leading `+`.
pub open spec fn digits_of(text: Seq<char>) -> Seq<char> {
    if text.len() > 0 && text[0] == '+' {
        text.subrange(1, text.len() as int)
    } else {
        text
    }
}

/// The number below two to the power of 64 that a text stands for: one or
/// more decimal digits, after a `+` or not.
pub open spec fn parse_u64(text: Seq<char>) -> Option<u64> {
    let digits = digits_of(text);
    if digits.len() > 0 && (forall|i: int| 0 <= i < digits.len() ==> is_digit(#[trigger] digits[i]))
        && decimal(digits) <= u64::MAX {
        Some(decimal(digits) as u64)
    } else {
        None
    }
}

/// The number of the first digits of a sequence of digits is at most the
/// number of them all.
pub proof fn lemma_decimal_grows(digits: Seq<char>, count: int)
    requires
        0 <= count <= digits.len(),
        forall|i: int| 0 <= i < digits.len() ==> is_digit(#[trigger] digits[i]),
    ensures
        decimal(digits.take(count)) <= decimal(digits),
    decreases digits.len() - count,
{
    if count < digits.len() {
        lemma_decimal_grows(digits, count + 1);
        assert(digits.take(count + 1).drop_last() =~= digits.take(count));
        assert(is_digit(digits[count]));
    } else {
        assert(digits.take(count) =~= digits);
    }
}

/// The number that the characters from index `from` to index `to` stand
/// for.
fn number_in(chars: &Vec<char>, from: usize, to: usize) -> (r: Option<u64>)
    requires
        from <= to <= chars.len(),
    ensures
        r == parse_u64(chars@.subrange(from as int, to as int)),
{
    let ghost text = chars@.subrange(from as int, to as int);
    let ghost digits = digits_of(text);
    let start: usize = if from < to && chars[from] == '+' {
        from + 1
    } else {
        from
    };
    assert(digits =~= chars@.subrange(start as int, to as int));
    if start == to {
        return None;
    }
    let mut value: u64 = 0;
    let mut i: usize = start;
    while i < to
        invariant
            start <= i <= to <= chars.len(),
            text == chars@.subrange(from as int, to as int),
            digits == digits_of(text),
            digits == chars@.subrange(start as int, to as int),
            forall|k: int| 0 <= k < i - start ==> is_digit(#[trigger] digits[k]),
            value == decimal(digits.take(i - start)),
        decreases to - i,
    {
        let c: char = chars[i];
        assert(digits[i - start] == c);
        if c < '0' || c > '9' {
            return None;
        }
        let digit: u64 = (c as u64) - ('0' as u64);
        assert(digits.take(i - start + 1).drop_last() =~= digits.take(i - start));
        if value > (u64::MAX - digit) / 10 {
            proof {
                if forall|k: int| 0 <= k < digits.len() ==> is_digit(#[trigger] digits[k]) {
                    lemma_decimal_grows(digits, i - start + 1);
                }
            }
            return None;
        }
        value = value * 10 + digit;
        i += 1;
    }
    assert(digits.take(to - start) =~= digits);
    Some(value)
}

/// The index of the first comma of `s` at or after `from`, or the length of
/// `s`.
pub open spec fn comma_at(s: Seq<char>, from: int) -> int
    decreases s.len() - from,
{
    if 0 <= from < s.len() && s[from] != ',' {
        comma_at(s, from + 1)
    } else {
        from
    }
}

pub proof fn lemma_comma_at_bounds(s: Seq<char>, from: int)
    requires
        0 <= from <= s.len(),
    ensures
        from <= comma_at(s, from) <= s.len(),
    decreases s.len() - from,
{
    if from < s.len() && s[from] != ',' {
        lemma_comma_at_bounds(s, from + 1);
    }
}

/// The parts of `s` from index `from` on that the commas separate. A text
/// without a comma is one part, and so is the empty text.
pub open spec fn parts_from(s: Seq<char>, from: int) -> Seq<Seq<char>>
    decreases s.len() - from,
    via parts_from_decreases
{
    if from < 0 || from > s.len() {
        Seq::empty()
    } else if comma_at(s, from) >= s.len() {
        seq![s.subrange(from, s.len() as int)]
    } else {
        seq![s.subrange(from, comma_at(s, from))] + parts_from(s, comma_at(s, from) + 1)
    }
}

#[via_fn]
proof fn parts_from_decreases(s: Seq<char>, from: int) {
    if 0 <= from <= s.len() {
        lemma_comma_at_bounds(s, from);
    }
}

/// The identifiers that the parts stand for, if every part stands for one.
pub open spec fn ids_of(parts: Seq<Seq<char>>) -> Option<Seq<EntityId>> {
    if forall|i: int| 0 <= i < parts.len() ==> parse_u64(#[trigger] parts[i]) is Some {
        Some(Seq::new(parts.len(), |i: int| EntityId { id: parse_u64(parts[i]).unwrap() as u128 }))
    } else {
        None
    }
}

/// The index of the first part that stands for no number.
pub open spec fn first_bad_part(parts: Seq<Seq<char>>) -> int
    decreases parts.len(),
{
    if parts.len() == 0 {
        0
    } else if parse_u64(parts[0]) is None {
        0
    } else {
        1 + first_bad_part(parts.drop_first())
    }
}

/// Why a list of identifiers cannot be read.
#[derive(Clone, Debug, PartialEq, Eq)]
pub enum EntitiesPathError {
    /// This part of the list is no identifier.
    InvalidId { text: String },
}

impl EntitiesPath {
    /// The identifiers in the list, in order.
    ///
    /// The list is cut at its commas, and every part has to be a decimal
    /// number below two to the power of 64, with a `+` before it or without.
    /// Fails with the first part that is not.
    pub fn get_entity_ids(&self) -> (r: Result<Vec<EntityId>, EntitiesPathError>)
        ensures
            match ids_of(parts_from(self.id@, 0)) {
                Some(ids) => r matches Ok(found) && found@ == ids,
                None => r matches Err(EntitiesPathError::InvalidId { text }) && text@
                    == parts_from(self.id@, 0)[first_bad_part(parts_from(self.id@, 0))],
            },
    {
        let chars = chars_of(self.id.as_str());
        let ghost s = self.id@;
        let ghost all = parts_from(s, 0);
        let n: usize = chars.len();
        let mut ids: Vec<EntityId> = Vec::new();
        let ghost mut seen: Seq<Seq<char>> = Seq::empty();
        let mut from: usize = 0;
        loop
            invariant
                chars@ == s,
                s == self.id@,
                n == s.len(),
                from <= n,
                all == parts_from(s, 0),
                seen + parts_from(s, from as int) == all,
                ids@.len() == seen.len(),
                forall|k: int|
                    0 <= k < seen.len() ==> parse_u64(#[trigger] seen[k]) == Some(
                        ids@[k].id as u64,
                    ) && ids@[k].id <= u64::MAX,
                first_bad_part(all) == seen.len() + first_bad_part(parts_from(s, from as int)),
            decreases n - from,
        {
            let mut to: usize = from;
            while to < n && chars[to] != ','
                invariant
                    chars@ == s,
                    n == s.len(),
                    from <= to <= n,
                    comma_at(s, to as int) == comma_at(s, from as int),
                decreases n - to,
            {
                to += 1;
            }
            let ghost part = s.subrange(from as int, to as int);
            let ghost rest = parts_from(s, from as int);
            proof {
                assert(comma_at(s, from as int) == to);
                assert(rest[0] == part);
                if to < n {
                    assert(rest.drop_first() =~= parts_from(s, to + 1));
                } else {
                    assert(rest =~= seq![part]);
                    assert(rest.drop_first() =~= Seq::<Seq<char>>::empty());
                }
                lemma_first_bad_part_add(seen, rest);
            }
            match number_in(&chars, from, to) {
                None => {
                    proof {
                        assert(all[seen.len() as int] == part);
                        assert(parse_u64(all[seen.len() as int]) is None);
                    }
                    return Err(
                        EntitiesPathError::InvalidId {
                            text: self.id.as_str().substring_char(from, to).to_owned(),
                        },
                    );
                },
                Some(id) => {
                    ids.push(EntityId::new(id as u128));
                },
            }
            proof {
                assert(seen.push(part) + rest.drop_first() =~= seen + rest);
                seen = seen.push(part);
            }
            if to == n {
                proof {
                    assert(seen =~= all);
                    assert(ids@ =~= ids_of(all).unwrap());
                }
                return Ok(ids);
            }
            from = to + 1;
        }
    }
}

/// The first bad part of parts that stand for numbers, followed by more.
proof fn lemma_first_bad_part_add(good: Seq<Seq<char>>, more: Seq<Seq<char>>)
    requires
        forall|k: int| 0 <= k < good.len() ==> parse_u64(#[trigger] good[k]) is Some,
    ensures
        first_bad_part(good + more) == good.len() + first_bad_part(more),
    decreases good.len(),
{
    if good.len() > 0 {
        assert((good + more).drop_first() =~= good.drop_first() + more);
        assert((good + more)[0] == good[0]);
        assert forall|k: int| 0 <= k < good.drop_first().len() implies parse_u64(
            #[trigger] good.drop_first()[k],
        ) is Some by {
            assert(good.drop_first()[k] == good[k + 1]);
        }
        lemma_first_bad_part_add(good.drop_first(), more);
    } else {
        assert(good + more =~= more);
    }
}

/// A record in the form in which it travels: its payload as a text.
#[derive(Clone, Debug, Default, PartialEq, Eq)]
pub struct JsonRecord {
    pub id: Option<u128>,
    pub tags: Vec<String>,
    pub attributes: Vec<(String, String)>,
    pub data: Option<String>,
}

/// The text that a payload travels as: the text that it encodes. A payload
/// that encodes no text travels as the words in which it is refused, and is
/// lost.
fn payload_text(bytes: Vec<u8>) -> (text: String)
    ensures
        valid_utf8(bytes@) ==> text@ == decode_utf8(bytes@),
{
    match utf8_text(bytes) {
        Ok(text) => text,
        Err(message) => message,
    }
}

impl JsonRecord {
    /// The form in which the record `eid` travels, or nothing for no record.
    /// A payload that is well-formed UTF-8 travels as the text that it
    /// encodes.
    pub fn from_eid_and_record(eid: &EntityId, record: Option<Record>) -> (r: Option<JsonRecord>)
        ensures
            match (record, r) {
                (None, None) => true,
                (Some(record), Some(json)) => {
                    &&& json.id == Some(eid.id)
                    &&& json.tags.deep_view() == record@.ta.tags
                    &&& json.attributes.deep_view() == record@.ta.attributes
                    &&& match (record.data, json.data) {
                        (None, None) => true,
                        (Some(bytes), Some(text)) => valid_utf8(bytes@) ==> text@ == decode_utf8(
                            bytes@,
                        ),
                        _ => false,
                    }
                },
                _ => false,
            },
    {
        match record {
            Some(record) => Some(
                JsonRecord {
                    id: Some(eid.id),
                    tags: record.ta.tags,
                    attributes: record.ta.attributes,
                    data: match record.data {
                        Some(bytes) => Some(payload_text(bytes)),
                        None => None,
                    },
                },
            ),
            None => None,
        }
    }

    /// The identifier and the record that travelled: the payload is the
    /// UTF-8 encoding of the text.
    pub fn get_id_and_record(&self) -> (r: (Option<EntityId>, Record))
        ensures
            r.0 == match self.id {
                Some(id) => Some(EntityId { id }),
                None => None,
            },
            r.1@.ta.tags == self.tags.deep_view(),
            r.1@.ta.attributes == self.attributes.deep_view(),
            r.1@.data == match self.data {
                Some(text) => Some(encode_utf8(text@)),
                None => None,
            },
    {
        let eid = match self.id {
            Some(id) => Some(EntityId::new(id)),
            None => None,
        };
        let mut tags: Vec<String> = Vec::new();
        let n: usize = self.tags.len();
        let mut i: usize = 0;
        assert(tags.deep_view() =~= self.tags.deep_view().take(0));
        while i < n
            invariant
                n == self.tags.len(),
                i <= n,
                tags.deep_view() == self.tags.deep_view().take(i as int),
            decreases n - i,
        {
            let ghost before = tags.deep_view();
            tags.push(self.tags[i].clone());
            assert(tags.deep_view() =~= before.push(self.tags@[i as int]@));
            assert(before.push(self.tags@[i as int]@) =~= self.tags.deep_view().take(i + 1));
            i += 1;
        }
        assert(self.tags.deep_view().take(n as int) =~= self.tags.deep_view());
        let mut attributes: Vec<(String, String)> = Vec::new();
        let m: usize = self.attributes.len();
        let mut j: usize = 0;
        assert(attributes.deep_view() =~= self.attributes.deep_view().take(0));
        while j < m
            invariant
                m == self.attributes.len(),
                j <= m,
                attributes.deep_view() == self.attributes.deep_view().take(j as int),
            decreases m - j,
        {
            let ghost before = attributes.deep_view();
            let key = self.attributes[j].0.clone();
            let value = self.attributes[j].1.clone();
            attributes.push((key, value));
            assert(attributes.deep_view() =~= before.push((key@, value@)));
            assert(before.push((key@, value@)) =~= self.attributes.deep_view().take(j + 1));
            j += 1;
        }
        assert(self.attributes.deep_view().take(m as int) =~= self.attributes.deep_view());
        let data = match &self.data {
            Some(text) => {
                let bytes = text.as_str().as_bytes_vec();
                assert(bytes.deep_view() =~= bytes@);
                Some(bytes)
            },
            None => None,
        };
        (eid, Record { ta: TagsAndAttributes { tags, attributes }, data })
    }
}

/// A record that travelled and travels back has the text that it had.
pub proof fn lemma_json_round_trip(text: Seq<char>)
    ensures
        valid_utf8(encode_utf8(text)),
        decode_utf8(encode_utf8(text)) == text,
{
    vstd::utf8::encode_utf8_valid_utf8(text);
    vstd::utf8::encode_utf8_decode_utf8(text);
}

/// What shows the results of a search.
#[derive(Clone, Copy, Debug, Default, PartialEq, Eq)]
pub struct SearchResultRendererWeb {}

impl SearchResultRendererWeb {
    /// The text of the payload of a record, to show it: the text that the
    /// payload encodes, and no text for no payload.
    pub fn render_record_data(record: &Record) -> (text: String)
        ensures
            match record.data {
                None => text@.len() == 0,
                Some(bytes) => valid_utf8(bytes@) ==> text@ == decode_utf8(bytes@),
            },
    {
        match &record.data {
            None => String::new(),
            Some(bytes) => payload_text(bytes.clone()),
        }
    }
}

} // verus!
