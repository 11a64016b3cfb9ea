//! Random test data from a seeded generator.

use crate::container::rows::position_before;
use crate::entity::{keys_of, EntityId, Record, TagsAndAttributes};
use vstd::prelude::*;

verus! {

/// `rand_pcg::Pcg64Mcg`: the state of a generator.
#[verifier::external_type_specification]
#[verifier::external_body]
pub struct ExPcg64Mcg(rand_pcg::Pcg64Mcg);

/// A generator of pseudo-random numbers with a given seed.
pub struct TestRng {
    rng: rand_pcg::Pcg64Mcg,
}

/// The generator with this seed.
///
/// Calls `rand_core::SeedableRng::seed_from_u64` for `rand_pcg::Pcg64Mcg`.
#[verifier::external_body]
fn pcg_seed_from_u64(seed: u64) -> (rng: rand_pcg::Pcg64Mcg) {
    rand_core::SeedableRng::seed_from_u64(seed)
}

/// The next number of the generator.
///
/// Calls `rand_core::RngCore::next_u64`. Nothing is claimed of the number.
#[verifier::external_body]
fn pcg_next_u64(rng: &mut rand_pcg::Pcg64Mcg) -> (r: u64) {
    rand_core::RngCore::next_u64(rng)
}

/// A number below `end`.
///
/// Calls `rand::Rng::gen_range` with the range from 0 up to and without
/// `end`. It panics on an empty range and gives a number of the range.
#[verifier::external_body]
fn pcg_gen_range(rng: &mut rand_pcg::Pcg64Mcg, end: u64) -> (r: u64)
    requires
        end > 0,
    ensures
        r < end,
{
    rand::Rng::gen_range(rng, 0..end)
}

/// Whether `c` is an ASCII letter or digit.
pub open spec fn is_alphanumeric(c: char) -> bool {
    ||| ('a' <= c && c <= 'z')
    ||| ('A' <= c && c <= 'Z')
    ||| ('0' <= c && c <= '9')
}

/// A text of fewer than `bound` characters, each an ASCII letter or digit.
pub open spec fn is_short_word(text: Seq<char>, bound: int) -> bool {
    &&& text.len() < bound
    &&& forall|i: int| 0 <= i < text.len() ==> is_alphanumeric(#[trigger] text[i])
}

/// A text of `len` characters, each an ASCII letter or digit.
///
/// Calls `rand::distributions::DistString::sample_string` of
/// `rand::distributions::Alphanumeric`, which gives a string of `len`
/// characters, each drawn from the ASCII letters and digits.
#[verifier::external_body]
fn pcg_sample_string(rng: &mut rand_pcg::Pcg64Mcg, len: usize) -> (r: String)
    ensures
        r@.len() == len,
        forall|i: int| 0 <= i < r@.len() ==> is_alphanumeric(#[trigger] r@[i]),
{
    rand::distributions::DistString::sample_string(&rand::distributions::Alphanumeric, rng, len)
}

/// Overwrites the bytes.
///
/// Calls `rand::Rng::fill` on the bytes as a slice: as many bytes as
/// before, and nothing is claimed of what they are.
#[verifier::external_body]
fn pcg_fill(rng: &mut rand_pcg::Pcg64Mcg, bytes: &mut Vec<u8>)
    ensures
        final(bytes)@.len() == old(bytes)@.len(),
{
    rand::Rng::fill(rng, &mut bytes[..])
}

/// A number of 128 bits.
///
/// Calls `rand::Rng::gen`. Nothing is claimed of the number.
#[verifier::external_body]
fn pcg_gen_u128(rng: &mut rand_pcg::Pcg64Mcg) -> (r: u128) {
    rand::Rng::gen(rng)
}

impl TestRng {
    pub fn new(seed: u64) -> (rng: TestRng) {
        TestRng { rng: pcg_seed_from_u64(seed) }
    }

    pub fn rand_u64(&mut self) -> (r: u64) {
        pcg_next_u64(&mut self.rng)
    }

    /// The range: [0, end).
    pub fn rand_range(&mut self, end: u64) -> (r: u64)
        requires
            end > 0,
        ensures
            r < end,
    {
        pcg_gen_range(&mut self.rng, end)
    }

    /// A text of fewer than `size_max` characters, each an ASCII letter or
    /// digit.
    pub fn rand_string(&mut self, size_max: usize) -> (r: String)
        requires
            size_max > 0,
        ensures
            is_short_word(r@, size_max as int),
    {
        let size: usize = self.rand_range(size_max as u64) as usize;
        pcg_sample_string(&mut self.rng, size)
    }

    /// Fewer than `size_max` bytes.
    pub fn rand_vec_u8(&mut self, size_max: usize) -> (r: Vec<u8>)
        requires
            size_max > 0,
        ensures
            r@.len() < size_max,
    {
        let size: usize = self.rand_range(size_max as u64) as usize;
        let mut v: Vec<u8> = Vec::new();
        let mut i: usize = 0;
        while i < size
            invariant
                i <= size,
                v@.len() == i,
            decreases size - i,
        {
            v.push(0);
            i += 1;
        }
        pcg_fill(&mut self.rng, &mut v);
        v
    }

    pub fn rand_u128(&mut self) -> (r: u128) {
        pcg_gen_u128(&mut self.rng)
    }
}

/// Every text has fewer than `bound` characters, each an ASCII letter or
/// digit.
pub open spec fn are_short(texts: Seq<Seq<char>>, bound: int) -> bool {
    forall|i: int| 0 <= i < texts.len() ==> is_short_word(#[trigger] texts[i], bound)
}

/// Every key and every value has fewer than `bound` characters, each an
/// ASCII letter or digit.
pub open spec fn are_short_pairs(pairs: Seq<(Seq<char>, Seq<char>)>, bound: int) -> bool {
    forall|i: int|
        0 <= i < pairs.len() ==> is_short_word((#[trigger] pairs[i]).0, bound) && is_short_word(
            pairs[i].1,
            bound,
        )
}

/// The tags with one more tag, which is added at the end unless it is one
/// of them.
pub open spec fn with_tag(tags: Seq<Seq<char>>, tag: Seq<char>) -> Seq<Seq<char>> {
    if tags.contains(tag) {
        tags
    } else {
        tags.push(tag)
    }
}

/// The index of the first attribute with this key, or the number of
/// attributes where none has it.
pub open spec fn first_with_key(attrs: Seq<(Seq<char>, Seq<char>)>, key: Seq<char>) -> int
    decreases attrs.len(),
{
    if attrs.len() == 0 {
        0
    } else if attrs[0].0 == key {
        0
    } else {
        1 + first_with_key(attrs.drop_first(), key)
    }
}

/// The attributes with one more attribute: it takes the place of the first
/// attribute with its key, and is added at the end where none has it.
pub open spec fn with_attribute(
    attrs: Seq<(Seq<char>, Seq<char>)>,
    key: Seq<char>,
    value: Seq<char>,
) -> Seq<(Seq<char>, Seq<char>)> {
    let at = first_with_key(attrs, key);
    if at < attrs.len() {
        attrs.update(at, (key, value))
    } else {
        attrs.push((key, value))
    }
}

/// The first attribute with a key is at an index of the attributes, has the
/// key, and none before it has.
pub proof fn lemma_first_with_key(attrs: Seq<(Seq<char>, Seq<char>)>, key: Seq<char>)
    ensures
        0 <= first_with_key(attrs, key) <= attrs.len(),
        first_with_key(attrs, key) < attrs.len() ==> attrs[first_with_key(attrs, key)].0 == key,
        forall|m: int| 0 <= m < first_with_key(attrs, key) ==> (#[trigger] attrs[m]).0 != key,
    decreases attrs.len(),
{
    if attrs.len() > 0 && attrs[0].0 != key {
        let rest = attrs.drop_first();
        lemma_first_with_key(rest, key);
        assert forall|m: int| 0 <= m < first_with_key(attrs, key) implies (#[trigger] attrs[m]).0
            != key by {
            if m > 0 {
                assert(rest[m - 1] == attrs[m]);
            }
        }
    }
}

/// Adds the tag at the end of the tags unless it is one of them.
pub fn add_tag(tags: &mut Vec<String>, tag: String)
    ensures
        final(tags).deep_view() == with_tag(old(tags).deep_view(), tag@),
{
    let end: usize = tags.len();
    let ghost before = tags.deep_view();
    assert(before.take(end as int) =~= before);
    if position_before(tags, end, &tag).is_none() {
        tags.push(tag);
        assert(tags.deep_view() =~= before.push(tag@));
    }
}

/// The index of the first attribute with this key.
fn key_position(attrs: &Vec<(String, String)>, key: &String) -> (r: Option<usize>)
    ensures
        match r {
            Some(k) => k == first_with_key(attrs.deep_view(), key@) && k < attrs.len(),
            None => first_with_key(attrs.deep_view(), key@) == attrs.len(),
        },
{
    let ghost all = attrs.deep_view();
    let n: usize = attrs.len();
    let mut k: usize = 0;
    assert(all.skip(0) =~= all);
    while k < n
        invariant
            n == attrs.len(),
            all == attrs.deep_view(),
            k <= n,
            first_with_key(all, key@) == k + first_with_key(all.skip(k as int), key@),
        decreases n - k,
    {
        let ghost rest = all.skip(k as int);
        assert(rest[0] == all[k as int]);
        assert(all[k as int].0 == attrs@[k as int].0@);
        assert(rest.drop_first() =~= all.skip(k + 1));
        if attrs[k].0 == *key {
            return Some(k);
        }
        k += 1;
    }
    assert(all.skip(n as int).len() == 0);
    None
}

/// Adds the attribute: in the place of the first attribute with its key,
/// and at the end where none has it.
pub fn add_attribute(attrs: &mut Vec<(String, String)>, key: String, value: String)
    ensures
        final(attrs).deep_view() == with_attribute(old(attrs).deep_view(), key@, value@),
{
    let ghost before = attrs.deep_view();
    match key_position(attrs, &key) {
        Some(k) => {
            attrs.set(k, (key, value));
            assert(attrs.deep_view() =~= before.update(k as int, (key@, value@)));
        },
        None => {
            attrs.push((key, value));
            assert(attrs.deep_view() =~= before.push((key@, value@)));
        },
    }
}

/// Distinct tags stay distinct, and short ones short, when a short tag is
/// added.
pub proof fn lemma_with_tag(tags: Seq<Seq<char>>, tag: Seq<char>, bound: int)
    requires
        tags.no_duplicates(),
        are_short(tags, bound),
        is_short_word(tag, bound),
    ensures
        with_tag(tags, tag).no_duplicates(),
        are_short(with_tag(tags, tag), bound),
        tags.len() <= with_tag(tags, tag).len() <= tags.len() + 1,
{
    let after = with_tag(tags, tag);
    if !tags.contains(tag) {
        assert forall|a: int, b: int|
            0 <= a < after.len() && 0 <= b < after.len() && a != b implies after[a]
            != after[b] by {
            if a < tags.len() {
                assert(tags.contains(tags[a]));
            }
            if b < tags.len() {
                assert(tags.contains(tags[b]));
            }
        }
    }
}

/// Attributes with distinct keys keep distinct keys, and short ones stay
/// short, when a short attribute is added.
pub proof fn lemma_with_attribute(
    attrs: Seq<(Seq<char>, Seq<char>)>,
    key: Seq<char>,
    value: Seq<char>,
    bound: int,
)
    requires
        keys_of(attrs).no_duplicates(),
        are_short_pairs(attrs, bound),
        is_short_word(key, bound),
        is_short_word(value, bound),
    ensures
        keys_of(with_attribute(attrs, key, value)).no_duplicates(),
        are_short_pairs(with_attribute(attrs, key, value), bound),
        attrs.len() <= with_attribute(attrs, key, value).len() <= attrs.len() + 1,
{
    let after = with_attribute(attrs, key, value);
    let at = first_with_key(attrs, key);
    lemma_first_with_key(attrs, key);
    let keys = keys_of(attrs);
    let keys_after = keys_of(after);
    if at < attrs.len() {
        assert(keys_after =~= keys);
    } else {
        assert(keys_after =~= keys.push(key));
        assert forall|a: int, b: int|
            0 <= a < keys_after.len() && 0 <= b < keys_after.len() && a != b implies keys_after[a]
            != keys_after[b] by {
            if a < keys.len() {
                assert(keys[a] == attrs[a].0);
            }
            if b < keys.len() {
                assert(keys[b] == attrs[b].0);
            }
        }
    }
}

/// Fewer than 16 distinct tags, each of fewer than 16 letters and digits: as many
/// texts as the generator says are drawn from it, and each is added unless
/// it is there.
pub fn random_tags(test_rng: &mut TestRng) -> (tags: Vec<String>)
    ensures
        tags.deep_view().no_duplicates(),
        tags.len() < 16,
        are_short(tags.deep_view(), 16),
{
    let nr_tags: usize = (test_rng.rand_u64() % 16) as usize;
    let mut tags: Vec<String> = Vec::new();
    let mut i: usize = 0;
    while i < nr_tags
        invariant
            i <= nr_tags,
            nr_tags < 16,
            tags.len() <= i,
            tags.deep_view().no_duplicates(),
            are_short(tags.deep_view(), 16),
        decreases nr_tags - i,
    {
        let tag = test_rng.rand_string(16);
        proof {
            lemma_with_tag(tags.deep_view(), tag@, 16);
        }
        add_tag(&mut tags, tag);
        i += 1;
    }
    tags
}

/// Fewer than 16 attributes with distinct keys, each key and each value of
/// fewer than 16 letters and digits: as many keys and values as the generator says
/// are drawn from it, and of two values for one key the later one stays.
pub fn random_attrs(test_rng: &mut TestRng) -> (attrs: Vec<(String, String)>)
    ensures
        keys_of(attrs.deep_view()).no_duplicates(),
        attrs.len() < 16,
        are_short_pairs(attrs.deep_view(), 16),
{
    let nr_attrs: usize = (test_rng.rand_u64() % 16) as usize;
    let mut attrs: Vec<(String, String)> = Vec::new();
    let mut i: usize = 0;
    assert(keys_of(attrs.deep_view()) =~= Seq::<Seq<char>>::empty());
    while i < nr_attrs
        invariant
            i <= nr_attrs,
            nr_attrs < 16,
            attrs.len() <= i,
            keys_of(attrs.deep_view()).no_duplicates(),
            are_short_pairs(attrs.deep_view(), 16),
        decreases nr_attrs - i,
    {
        let key = test_rng.rand_string(16);
        let value = test_rng.rand_string(16);
        proof {
            lemma_with_attribute(attrs.deep_view(), key@, value@, 16);
        }
        add_attribute(&mut attrs, key, value);
        i += 1;
    }
    attrs
}

/// Tags and attributes without a repeated tag or key, each text of fewer
/// than 16 letters and digits.
pub fn random_tags_and_attrs(test_rng: &mut TestRng) -> (ta: TagsAndAttributes)
    ensures
        ta@.wf(),
        ta.tags.len() < 16,
        ta.attributes.len() < 16,
        are_short(ta@.tags, 16),
        are_short_pairs(ta@.attributes, 16),
{
    let tags = random_tags(test_rng);
    let attributes = random_attrs(test_rng);
    TagsAndAttributes { tags, attributes }
}

/// A record without a repeated tag or key; one time in eight, as the
/// generator has it, without a payload, and else with fewer than 256 bytes.
pub fn random_record(test_rng: &mut TestRng) -> (record: Record)
    ensures
        record@.wf(),
        record.ta.tags.len() < 16,
        record.ta.attributes.len() < 16,
        are_short(record@.ta.tags, 16),
        are_short_pairs(record@.ta.attributes, 16),
        record.data matches Some(bytes) ==> bytes@.len() < 0x100,
{
    let ta = random_tags_and_attrs(test_rng);
    let data = if test_rng.rand_range(8) == 0 {
        None
    } else {
        Some(test_rng.rand_vec_u8(0x100))
    };
    Record { ta, data }
}

pub fn random_entity_id(test_rng: &mut TestRng) -> (eid: EntityId) {
    EntityId { id: test_rng.rand_u128() }
}

} // verus!
