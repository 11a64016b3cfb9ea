//! From the rows of the relational encoding to entities.
//!
//! Nothing in the tables keeps a tag or an attribute key from being stored
//! twice for one version of an entity, or a record from having two payload
//! rows. Such rows violate the data model. They are detected here, when the
//! rows are read, and reported instead of being merged.

use crate::container::{DataError, DataErrorView};
use crate::entity::{EntityId, EntityIdVer, ENTITY_ID_START};
use crate::entity::keys_of;
use vstd::prelude::*;

verus! {

/// The index of the first item at or after `from` that also stands earlier
/// in `s`, or the length of `s` if there is none.
pub open spec fn repeat_from<A>(s: Seq<A>, from: int) -> int
    decreases s.len() - from,
{
    if 0 <= from < s.len() && !s.take(from).contains(s[from]) {
        repeat_from(s, from + 1)
    } else {
        from
    }
}

/// The index of the first item of `s` that repeats an earlier one, or the
/// length of `s` if every item is distinct.
pub open spec fn first_repeat<A>(s: Seq<A>) -> int {
    repeat_from(s, 0)
}

pub proof fn lemma_repeat_from<A>(s: Seq<A>, from: int)
    requires
        0 <= from <= s.len(),
        s.take(from).no_duplicates(),
    ensures
        from <= repeat_from(s, from) <= s.len(),
        s.take(repeat_from(s, from)).no_duplicates(),
        repeat_from(s, from) < s.len() ==> s.take(repeat_from(s, from)).contains(
            s[repeat_from(s, from)],
        ),
    decreases s.len() - from,
{
    if from < s.len() && !s.take(from).contains(s[from]) {
        let shorter = s.take(from);
        let longer = s.take(from + 1);
        assert forall|i: int, j: int| 0 <= i < longer.len() && 0 <= j < longer.len() && i != j implies #[trigger] longer[i]
            != #[trigger] longer[j] by {
            if i == from {
                assert(shorter[j] == s[j]);
            } else if j == from {
                assert(shorter[i] == s[i]);
            } else {
                assert(shorter[i] == s[i]);
                assert(shorter[j] == s[j]);
            }
        }
        lemma_repeat_from(s, from + 1);
    }
}

/// A sequence has no repeated item exactly if its first repeat is its end.
pub proof fn lemma_first_repeat<A>(s: Seq<A>)
    ensures
        0 <= first_repeat(s) <= s.len(),
        s.no_duplicates() <==> first_repeat(s) == s.len(),
        s.take(first_repeat(s)).no_duplicates(),
        first_repeat(s) < s.len() ==> s.take(first_repeat(s)).contains(s[first_repeat(s)]),
{
    assert(s.take(0).no_duplicates());
    lemma_repeat_from(s, 0);
    let at = first_repeat(s);
    if at == s.len() {
        assert(s.take(at) =~= s);
    } else {
        let earlier = choose|k: int| 0 <= k < at && s.take(at)[k] == s[at];
        assert(s[earlier] == s[at]);
    }
}

/// What reading the tags of `eid` gives, from the tag rows of `eid`: the
/// tags in the order of the rows, or the first tag that is stored twice.
pub open spec fn tags_result(eid: EntityIdVer, rows: Seq<Seq<char>>) -> Result<
    Seq<Seq<char>>,
    DataErrorView,
> {
    if rows.no_duplicates() {
        Ok(rows)
    } else {
        Err(DataErrorView::DuplicateTag { eid, tag: rows[first_repeat(rows)] })
    }
}

/// What reading the attributes of `eid` gives, from the attribute rows of
/// `eid`: the attributes in the order of the rows, or the first attribute
/// whose key is stored twice.
pub open spec fn attributes_result(eid: EntityIdVer, rows: Seq<(Seq<char>, Seq<char>)>) -> Result<
    Seq<(Seq<char>, Seq<char>)>,
    DataErrorView,
> {
    if keys_of(rows).no_duplicates() {
        Ok(rows)
    } else {
        Err(
            DataErrorView::DuplicateAttribute {
                eid,
                key: rows[first_repeat(keys_of(rows))].0,
                value: rows[first_repeat(keys_of(rows))].1,
            },
        )
    }
}

/// The model of a result of tags.
pub open spec fn tags_view(r: Result<Vec<String>, DataError>) -> Result<
    Seq<Seq<char>>,
    DataErrorView,
> {
    match r {
        Ok(tags) => Ok(tags.deep_view()),
        Err(e) => Err(e@),
    }
}

/// The model of a result of attributes.
pub open spec fn attributes_view(r: Result<Vec<(String, String)>, DataError>) -> Result<
    Seq<(Seq<char>, Seq<char>)>,
    DataErrorView,
> {
    match r {
        Ok(attributes) => Ok(attributes.deep_view()),
        Err(e) => Err(e@),
    }
}

/// The index of the first of the first `end` texts of `v` that equals `s`.
pub(crate) fn position_before(v: &Vec<String>, end: usize, s: &String) -> (r: Option<usize>)
    requires
        end <= v.len(),
    ensures
        r is Some <==> v.deep_view().take(end as int).contains(s@),
        r matches Some(k) ==> k < end && v.deep_view()[k as int] == s@,
{
    let ghost all = v.deep_view();
    let mut k: usize = 0;
    while k < end
        invariant
            end <= v.len(),
            all == v.deep_view(),
            k <= end,
            forall|m: int| 0 <= m < k ==> all[m] != s@,
        decreases end - k,
    {
        if v[k] == *s {
            assert(all.take(end as int)[k as int] == s@);
            return Some(k);
        }
        k += 1;
    }
    assert forall|m: int| 0 <= m < all.take(end as int).len() implies all.take(end as int)[m]
        != s@ by {
        assert(all.take(end as int)[m] == all[m]);
    }
    None
}

/// The tags of `eid` from its tag rows.
///
/// Gives the tags in the order of the rows if every one is distinct, and
/// else reports the first tag that repeats an earlier one.
pub fn tags_from_rows(eid: &EntityIdVer, rows: Vec<String>) -> (r: Result<
    Vec<String>,
    DataError,
>)
    ensures
        tags_view(r) == tags_result(*eid, rows.deep_view()),
{
    let ghost all = rows.deep_view();
    let n: usize = rows.len();
    let mut i: usize = 0;
    while i < n
        invariant
            n == rows.len(),
            all == rows.deep_view(),
            i <= n,
            repeat_from(all, i as int) == first_repeat(all),
        decreases n - i,
    {
        if position_before(&rows, i, &rows[i]).is_some() {
            proof {
                lemma_first_repeat(all);
            }
            return Err(DataError::DuplicateTag { eid: *eid, tag: rows[i].clone() });
        }
        i += 1;
    }
    proof {
        lemma_first_repeat(all);
    }
    Ok(rows)
}

/// The index of the first of the first `end` attributes of `v` with this key.
fn key_position_before(v: &Vec<(String, String)>, end: usize, key: &String) -> (r: Option<usize>)
    requires
        end <= v.len(),
    ensures
        r is Some <==> keys_of(v.deep_view()).take(end as int).contains(key@),
        r matches Some(k) ==> k < end && v.deep_view()[k as int].0 == key@,
{
    let ghost keys = keys_of(v.deep_view());
    let mut k: usize = 0;
    while k < end
        invariant
            end <= v.len(),
            keys == keys_of(v.deep_view()),
            k <= end,
            forall|m: int| 0 <= m < k ==> keys[m] != key@,
        decreases end - k,
    {
        assert(keys[k as int] == v@[k as int].0@);
        if v[k].0 == *key {
            assert(keys.take(end as int)[k as int] == key@);
            return Some(k);
        }
        k += 1;
    }
    assert forall|m: int| 0 <= m < keys.take(end as int).len() implies keys.take(end as int)[m]
        != key@ by {
        assert(keys.take(end as int)[m] == keys[m]);
    }
    None
}

/// The attributes of `eid` from its attribute rows.
///
/// Gives the attributes in the order of the rows if every key is distinct,
/// and else reports the first attribute whose key repeats an earlier one.
pub fn attributes_from_rows(eid: &EntityIdVer, rows: Vec<(String, String)>) -> (r: Result<
    Vec<(String, String)>,
    DataError,
>)
    ensures
        attributes_view(r) == attributes_result(*eid, rows.deep_view()),
{
    let ghost all = rows.deep_view();
    let ghost keys = keys_of(all);
    let n: usize = rows.len();
    let mut i: usize = 0;
    while i < n
        invariant
            n == rows.len(),
            all == rows.deep_view(),
            keys == keys_of(all),
            i <= n,
            repeat_from(keys, i as int) == first_repeat(keys),
        decreases n - i,
    {
        assert(keys[i as int] == rows@[i as int].0@);
        if key_position_before(&rows, i, &rows[i].0).is_some() {
            proof {
                lemma_first_repeat(keys);
                assert(all[i as int].0 == rows@[i as int].0@);
                assert(all[i as int].1 == rows@[i as int].1@);
            }
            return Err(
                DataError::DuplicateAttribute {
                    eid: *eid,
                    key: rows[i].0.clone(),
                    value: rows[i].1.clone(),
                },
            );
        }
        i += 1;
    }
    proof {
        lemma_first_repeat(keys);
    }
    Ok(rows)
}

/// What reading the payload row of the record `eid` gives, from the payload
/// rows of `eid`: nothing where there is no row, the payload of the one row,
/// and an error where there are more.
pub open spec fn payload_result(eid: EntityIdVer, rows: Seq<Option<Seq<u8>>>) -> Result<
    Option<Option<Seq<u8>>>,
    DataErrorView,
> {
    if rows.len() == 0 {
        Ok(None)
    } else if rows.len() == 1 {
        Ok(Some(rows[0]))
    } else {
        Err(DataErrorView::TooManyRows { eid })
    }
}

/// The model of a result of a payload row.
pub open spec fn payload_view(r: Result<Option<Option<Vec<u8>>>, DataError>) -> Result<
    Option<Option<Seq<u8>>>,
    DataErrorView,
> {
    match r {
        Ok(row) => Ok(row.deep_view()),
        Err(e) => Err(e@),
    }
}

/// The payload row of the record `eid` from the payload rows of `eid`.
///
/// The outer option of the result says whether the record exists, the inner
/// one whether it has a payload.
pub fn payload_from_rows(eid: &EntityIdVer, rows: Vec<Option<Vec<u8>>>) -> (r: Result<
    Option<Option<Vec<u8>>>,
    DataError,
>)
    ensures
        payload_view(r) == payload_result(*eid, rows.deep_view()),
{
    let mut rows = rows;
    let ghost all = rows.deep_view();
    if rows.len() > 1 {
        return Err(DataError::TooManyRows { eid: *eid });
    }
    match rows.pop() {
        None => Ok(None),
        Some(row) => {
            assert(row.deep_view() == all[0]);
            Ok(Some(row))
        },
    }
}

/// The rows of the links table that say where a link starts (`is_to` is
/// false) and where it ends (`is_to` is true).
pub open spec fn link_rows(from: Seq<EntityIdVer>, to: Seq<EntityIdVer>) -> Seq<
    (bool, EntityIdVer),
> {
    Seq::new(from.len(), |i: int| (false, from[i])) + Seq::new(to.len(), |i: int| (true, to[i]))
}

/// The endpoints on one side of a link, from its rows, in their order.
pub open spec fn endpoints(rows: Seq<(bool, EntityIdVer)>, is_to: bool) -> Seq<EntityIdVer>
    decreases rows.len(),
{
    if rows.len() == 0 {
        Seq::empty()
    } else {
        let before = endpoints(rows.drop_last(), is_to);
        if rows.last().0 == is_to {
            before.push(rows.last().1)
        } else {
            before
        }
    }
}

/// The endpoints of rows followed by more rows.
pub proof fn lemma_endpoints_add(
    rows: Seq<(bool, EntityIdVer)>,
    more: Seq<(bool, EntityIdVer)>,
    is_to: bool,
)
    ensures
        endpoints(rows + more, is_to) == endpoints(rows, is_to) + endpoints(more, is_to),
    decreases more.len(),
{
    if more.len() == 0 {
        assert(rows + more =~= rows);
        assert(endpoints(rows, is_to) + endpoints(more, is_to) =~= endpoints(rows, is_to));
    } else {
        assert((rows + more).drop_last() =~= rows + more.drop_last());
        assert((rows + more).last() == more.last());
        lemma_endpoints_add(rows, more.drop_last(), is_to);
        assert(endpoints(rows + more, is_to) =~= endpoints(rows, is_to) + endpoints(more, is_to));
    }
}

/// The endpoints of rows that all stand on one side.
pub proof fn lemma_endpoints_of_side(side: Seq<EntityIdVer>, at_to: bool, is_to: bool)
    ensures
        endpoints(Seq::new(side.len(), |i: int| (at_to, side[i])), is_to) == if at_to == is_to {
            side
        } else {
            Seq::empty()
        },
    decreases side.len(),
{
    let rows = Seq::new(side.len(), |i: int| (at_to, side[i]));
    if side.len() > 0 {
        let shorter = side.drop_last();
        assert(rows.drop_last() =~= Seq::new(shorter.len(), |i: int| (at_to, shorter[i])));
        lemma_endpoints_of_side(shorter, at_to, is_to);
        if at_to == is_to {
            assert(endpoints(rows, is_to) =~= side);
        }
    } else {
        assert(side =~= Seq::empty());
    }
}

/// The rows of a link give back its endpoints, side by side.
pub proof fn lemma_link_rows_round_trip(from: Seq<EntityIdVer>, to: Seq<EntityIdVer>)
    ensures
        endpoints(link_rows(from, to), false) == from,
        endpoints(link_rows(from, to), true) == to,
{
    let from_rows = Seq::new(from.len(), |i: int| (false, from[i]));
    let to_rows = Seq::new(to.len(), |i: int| (true, to[i]));
    lemma_endpoints_add(from_rows, to_rows, false);
    lemma_endpoints_add(from_rows, to_rows, true);
    lemma_endpoints_of_side(from, false, false);
    lemma_endpoints_of_side(from, false, true);
    lemma_endpoints_of_side(to, true, false);
    lemma_endpoints_of_side(to, true, true);
    assert(from + Seq::<EntityIdVer>::empty() =~= from);
    assert(Seq::<EntityIdVer>::empty() + to =~= to);
}

/// Every row gives an endpoint on one side or on the other.
pub proof fn lemma_endpoints_count(rows: Seq<(bool, EntityIdVer)>)
    ensures
        endpoints(rows, false).len() + endpoints(rows, true).len() == rows.len(),
    decreases rows.len(),
{
    if rows.len() > 0 {
        lemma_endpoints_count(rows.drop_last());
    }
}

/// The endpoints of a link from its rows: first those where it starts, then
/// those where it ends.
pub fn endpoints_from_rows(rows: &Vec<(bool, EntityIdVer)>) -> (r: (
    Vec<EntityIdVer>,
    Vec<EntityIdVer>,
))
    ensures
        r.0@ == endpoints(rows@, false),
        r.1@ == endpoints(rows@, true),
{
    let mut from: Vec<EntityIdVer> = Vec::new();
    let mut to: Vec<EntityIdVer> = Vec::new();
    let n: usize = rows.len();
    let mut i: usize = 0;
    while i < n
        invariant
            n == rows.len(),
            i <= n,
            from@ == endpoints(rows@.take(i as int), false),
            to@ == endpoints(rows@.take(i as int), true),
        decreases n - i,
    {
        assert(rows@.take(i + 1).drop_last() =~= rows@.take(i as int));
        if rows[i].0 {
            to.push(rows[i].1);
        } else {
            from.push(rows[i].1);
        }
        i += 1;
    }
    assert(rows@.take(n as int) =~= rows@);
    (from, to)
}

/// The highest of the versions, if there is any.
pub open spec fn max_version(versions: Seq<u64>) -> Option<u64>
    decreases versions.len(),
{
    if versions.len() == 0 {
        None
    } else {
        match max_version(versions.drop_last()) {
            None => Some(versions.last()),
            Some(m) => Some(
                if m >= versions.last() {
                    m
                } else {
                    versions.last()
                },
            ),
        }
    }
}

/// The highest version is one of the versions and none is higher.
pub proof fn lemma_max_version(versions: Seq<u64>)
    ensures
        max_version(versions) is None <==> versions.len() == 0,
        max_version(versions) matches Some(m) ==> versions.contains(m) && forall|i: int|
            0 <= i < versions.len() ==> versions[i] <= m,
    decreases versions.len(),
{
    if versions.len() > 0 {
        let shorter = versions.drop_last();
        lemma_max_version(shorter);
        let m = max_version(versions).unwrap();
        if m == versions.last() {
            assert(versions[versions.len() - 1] == m);
        } else {
            let k = choose|k: int| 0 <= k < shorter.len() && shorter[k] == m;
            assert(versions[k] == m);
        }
        assert forall|i: int| 0 <= i < versions.len() implies versions[i] <= m by {
            if i < shorter.len() {
                assert(shorter[i] == versions[i]);
            }
        }
    }
}

/// The versions under which `id` stands among the references, in order.
pub open spec fn versions_of(refs: Seq<EntityIdVer>, id: EntityId) -> Seq<u64>
    decreases refs.len(),
{
    if refs.len() == 0 {
        Seq::empty()
    } else {
        let before = versions_of(refs.drop_last(), id);
        if refs.last().id == id {
            before.push(refs.last().ver)
        } else {
            before
        }
    }
}

/// The highest version under which `id` stands among the references.
pub open spec fn latest_version_of(refs: Seq<EntityIdVer>, id: EntityId) -> Option<u64> {
    max_version(versions_of(refs, id))
}

/// An identifier has a latest version exactly if it stands among the
/// references; that version is one of its versions, and the highest.
pub proof fn lemma_latest_version_of(refs: Seq<EntityIdVer>, id: EntityId)
    ensures
        latest_version_of(refs, id) is Some <==> exists|j: int|
            0 <= j < refs.len() && (#[trigger] refs[j]).id == id,
        latest_version_of(refs, id) matches Some(m) ==> refs.contains(EntityIdVer { id, ver: m }),
        forall|j: int|
            0 <= j < refs.len() && (#[trigger] refs[j]).id == id ==> latest_version_of(refs, id)
                is Some && refs[j].ver <= latest_version_of(refs, id).unwrap(),
    decreases refs.len(),
{
    if refs.len() > 0 {
        let shorter = refs.drop_last();
        let last = refs.last();
        lemma_latest_version_of(shorter, id);
        lemma_max_version(versions_of(shorter, id));
        lemma_max_version(versions_of(refs, id));
        if last.id == id {
            assert(versions_of(refs, id).drop_last() =~= versions_of(shorter, id));
            assert(refs[refs.len() - 1].id == id);
        }
        if latest_version_of(shorter, id) is Some {
            let j = choose|j: int| 0 <= j < shorter.len() && (#[trigger] shorter[j]).id == id;
            assert(refs[j] == shorter[j]);
        }
        if latest_version_of(refs, id) is Some {
            let m = latest_version_of(refs, id).unwrap();
            if last.id == id && m == last.ver {
                assert(refs[refs.len() - 1] == EntityIdVer { id, ver: m });
            } else {
                assert(latest_version_of(shorter, id) == Some(m));
                let k = choose|k: int|
                    0 <= k < shorter.len() && shorter[k] == EntityIdVer { id, ver: m };
                assert(refs[k] == shorter[k]);
            }
        }
        assert forall|j: int| 0 <= j < refs.len() && (#[trigger] refs[j]).id == id implies latest_version_of(
            refs,
            id,
        ) is Some && refs[j].ver <= latest_version_of(refs, id).unwrap() by {
            if j < shorter.len() {
                assert(shorter[j] == refs[j]);
            }
        }
    }
}

/// The highest of the versions, if there is any.
pub fn latest_version(versions: &Vec<u64>) -> (r: Option<u64>)
    ensures
        r == max_version(versions@),
{
    let n: usize = versions.len();
    let mut latest: Option<u64> = None;
    let mut i: usize = 0;
    while i < n
        invariant
            n == versions.len(),
            i <= n,
            latest == max_version(versions@.take(i as int)),
        decreases n - i,
    {
        assert(versions@.take(i + 1).drop_last() =~= versions@.take(i as int));
        let v: u64 = versions[i];
        latest = match latest {
            None => Some(v),
            Some(m) => Some(
                if m >= v {
                    m
                } else {
                    v
                },
            ),
        };
        i += 1;
    }
    assert(versions@.take(n as int) =~= versions@);
    latest
}

/// The versions under which `id` stands among the references, in order.
pub fn versions_of_id(refs: &Vec<EntityIdVer>, id: &EntityId) -> (r: Vec<u64>)
    ensures
        r@ == versions_of(refs@, *id),
{
    let mut versions: Vec<u64> = Vec::new();
    let n: usize = refs.len();
    let mut i: usize = 0;
    while i < n
        invariant
            n == refs.len(),
            i <= n,
            versions@ == versions_of(refs@.take(i as int), *id),
        decreases n - i,
    {
        assert(refs@.take(i + 1).drop_last() =~= refs@.take(i as int));
        if refs[i].id.id == id.id {
            versions.push(refs[i].ver);
        }
        i += 1;
    }
    assert(refs@.take(n as int) =~= refs@);
    versions
}

/// `view` is the latest-version view of `refs`: it names every identifier
/// of `refs` once, with the highest version under which it stands there.
pub open spec fn is_latest_view(view: Seq<EntityIdVer>, refs: Seq<EntityIdVer>) -> bool {
    &&& forall|i: int|
        0 <= i < view.len() ==> latest_version_of(refs, (#[trigger] view[i]).id) == Some(
            view[i].ver,
        )
    &&& forall|i: int, j: int|
        0 <= i < j < view.len() ==> (#[trigger] view[i]).id != (#[trigger] view[j]).id
    &&& forall|j: int|
        0 <= j < refs.len() ==> exists|i: int|
            0 <= i < view.len() && (#[trigger] view[i]).id == (#[trigger] refs[j]).id
}

/// The latest-version view holds exactly the references to latest versions.
pub proof fn lemma_latest_view_members(view: Seq<EntityIdVer>, refs: Seq<EntityIdVer>, at: EntityIdVer)
    requires
        is_latest_view(view, refs),
    ensures
        view.contains(at) <==> latest_version_of(refs, at.id) == Some(at.ver),
{
    if latest_version_of(refs, at.id) == Some(at.ver) {
        lemma_latest_version_of(refs, at.id);
        let j = choose|j: int| 0 <= j < refs.len() && (#[trigger] refs[j]).id == at.id;
        let i = choose|i: int|
            0 <= i < view.len() && (#[trigger] view[i]).id == (#[trigger] refs[j]).id;
        assert(latest_version_of(refs, view[i].id) == Some(view[i].ver));
        assert(view[i] == at);
    }
    if view.contains(at) {
        let i = choose|i: int| 0 <= i < view.len() && view[i] == at;
        assert(latest_version_of(refs, view[i].id) == Some(view[i].ver));
    }
}

/// What a latest-version view lists is one of the references: of an
/// identifier that no reference has, it lists nothing.
pub proof fn lemma_latest_view_lists_stored(view: Seq<EntityIdVer>, refs: Seq<EntityIdVer>)
    requires
        is_latest_view(view, refs),
    ensures
        forall|at: EntityIdVer| #[trigger] view.contains(at) ==> refs.contains(at),
{
    assert forall|at: EntityIdVer| #[trigger] view.contains(at) implies refs.contains(at) by {
        lemma_latest_view_members(view, refs, at);
        lemma_latest_version_of(refs, at.id);
    }
}

/// The latest-version view of one reference is that reference, alone.
pub proof fn lemma_latest_view_of_one(view: Seq<EntityIdVer>, at: EntityIdVer)
    requires
        is_latest_view(view, seq![at]),
    ensures
        view == seq![at],
{
    let refs = seq![at];
    lemma_latest_view_lists_stored(view, refs);
    assert(refs[0] == at);
    let k = choose|k: int| 0 <= k < view.len() && (#[trigger] view[k]).id == (#[trigger] refs[0]).id;
    assert forall|i: int| 0 <= i < view.len() implies view[i] == at by {
        assert(view.contains(view[i]));
        let j = choose|j: int| 0 <= j < refs.len() && refs[j] == view[i];
    }
    if view.len() > 1 {
        assert(view[0].id != view[1].id);
    }
    assert(view =~= seq![at]);
}

/// Where the references of one identifier go and all others stay, the
/// latest-version view loses the entry of that identifier and keeps every
/// other entry as it is.
pub proof fn lemma_latest_view_without_id(
    before: Seq<EntityIdVer>,
    after: Seq<EntityIdVer>,
    refs: Seq<EntityIdVer>,
    left: Seq<EntityIdVer>,
    gone: EntityId,
)
    requires
        is_latest_view(before, refs),
        is_latest_view(after, left),
        forall|at: EntityIdVer| #[trigger] left.contains(at) <==> refs.contains(at) && at.id != gone,
    ensures
        forall|at: EntityIdVer| #[trigger] after.contains(at) <==> before.contains(at) && at.id != gone,
{
    assert forall|at: EntityIdVer| #[trigger]
        after.contains(at) <==> before.contains(at) && at.id != gone by {
        lemma_latest_view_members(before, refs, at);
        lemma_latest_view_members(after, left, at);
        lemma_latest_version_of(refs, at.id);
        lemma_latest_version_of(left, at.id);
        let old_latest = latest_version_of(refs, at.id);
        let new_latest = latest_version_of(left, at.id);
        if at.id == gone {
            if new_latest is Some {
                let j = choose|j: int| 0 <= j < left.len() && (#[trigger] left[j]).id == at.id;
                assert(left.contains(left[j]));
            }
        } else {
            if old_latest is Some {
                let top = EntityIdVer { id: at.id, ver: old_latest.unwrap() };
                assert(left.contains(top));
                let j = choose|j: int| 0 <= j < left.len() && left[j] == top;
                assert(left[j].id == at.id);
            }
            if new_latest is Some {
                let top = EntityIdVer { id: at.id, ver: new_latest.unwrap() };
                assert(refs.contains(top));
                let j = choose|j: int| 0 <= j < refs.len() && refs[j] == top;
                assert(refs[j].id == at.id);
            }
        }
    }
}

/// The index of the reference to `id`.
fn position_of_id(view: &Vec<EntityIdVer>, id: &EntityId) -> (r: Option<usize>)
    ensures
        r matches Some(k) ==> k < view.len() && view@[k as int].id == *id,
        r is None ==> forall|i: int| 0 <= i < view.len() ==> (#[trigger] view@[i]).id != *id,
{
    let n: usize = view.len();
    let mut k: usize = 0;
    while k < n
        invariant
            n == view.len(),
            k <= n,
            forall|i: int| 0 <= i < k ==> (#[trigger] view@[i]).id != *id,
        decreases n - k,
    {
        if view[k].id.id == id.id {
            return Some(k);
        }
        k += 1;
    }
    None
}

/// The latest version of an identifier after one more reference.
pub proof fn lemma_latest_version_push(seen: Seq<EntityIdVer>, next: EntityIdVer, id: EntityId)
    ensures
        latest_version_of(seen.push(next), id) == if next.id == id {
            match latest_version_of(seen, id) {
                None => Some(next.ver),
                Some(m) => Some(
                    if m >= next.ver {
                        m
                    } else {
                        next.ver
                    },
                ),
            }
        } else {
            latest_version_of(seen, id)
        },
{
    assert(seen.push(next).drop_last() =~= seen);
    if next.id == id {
        let versions = versions_of(seen, id);
        assert(versions.push(next.ver).drop_last() =~= versions);
    }
}

/// The latest-version view of the references: every identifier once, with
/// its highest version, in the order in which the identifiers first occur.
pub fn latest_refs(refs: &Vec<EntityIdVer>) -> (view: Vec<EntityIdVer>)
    ensures
        is_latest_view(view@, refs@),
{
    let mut view: Vec<EntityIdVer> = Vec::new();
    let n: usize = refs.len();
    let mut i: usize = 0;
    while i < n
        invariant
            n == refs.len(),
            i <= n,
            is_latest_view(view@, refs@.take(i as int)),
        decreases n - i,
    {
        let ghost seen = refs@.take(i as int);
        let ghost more = refs@.take(i + 1);
        let ghost before = view@;
        let next: EntityIdVer = refs[i];
        assert(more =~= seen.push(next));
        let found = position_of_id(&view, &next.id);
        let ghost at: int = match found {
            Some(k) => k as int,
            None => before.len() as int,
        };
        match found {
            Some(k) => {
                if view[k].ver < next.ver {
                    view.set(k, next);
                }
            },
            None => {
                view.push(next);
            },
        }
        proof {
            let after = view@;
            assert(0 <= at < after.len() && after[at].id == next.id);
            assert forall|a: int| 0 <= a < before.len() implies (#[trigger] after[a]).id
                == before[a].id by {}
            assert forall|a: int| 0 <= a < after.len() && a != at implies #[trigger] after[a]
                == before[a] && before[a].id != next.id by {
                if found is Some {
                    assert(before[at].id == next.id);
                    if a < at {
                        assert(before[a].id != before[at].id);
                    } else {
                        assert(before[at].id != before[a].id);
                    }
                }
            }
            lemma_latest_version_of(seen, next.id);
            if found is None && latest_version_of(seen, next.id) is Some {
                let j = choose|j: int| 0 <= j < seen.len() && (#[trigger] seen[j]).id == next.id;
                let w = choose|w: int|
                    0 <= w < before.len() && (#[trigger] before[w]).id == (#[trigger] seen[j]).id;
                assert(false);
            }
            assert forall|a: int| 0 <= a < after.len() implies latest_version_of(
                more,
                (#[trigger] after[a]).id,
            ) == Some(after[a].ver) by {
                lemma_latest_version_push(seen, next, after[a].id);
                if a != at {
                    assert(latest_version_of(seen, before[a].id) == Some(before[a].ver));
                } else if found is Some {
                    assert(latest_version_of(seen, before[at].id) == Some(before[at].ver));
                }
            }
            assert forall|j: int| 0 <= j < more.len() implies exists|a: int|
                0 <= a < after.len() && (#[trigger] after[a]).id == (#[trigger] more[j]).id by {
                if j < seen.len() {
                    assert(seen[j] == more[j]);
                    let a = choose|a: int|
                        0 <= a < before.len() && (#[trigger] before[a]).id == (
                        #[trigger] seen[j]).id;
                    assert(after[a].id == more[j].id);
                } else {
                    assert(after[at].id == more[j].id);
                }
            }
            assert forall|a: int, b: int| 0 <= a < b < after.len() implies (#[trigger] after[a]).id
                != (#[trigger] after[b]).id by {
                if b < before.len() {
                    assert(before[a].id != before[b].id);
                } else {
                    assert(b == at);
                }
            }
        }
        i += 1;
    }
    assert(refs@.take(n as int) =~= refs@);
    view
}

/// The highest identifier among the references, if there is any.
pub open spec fn max_id(refs: Seq<EntityIdVer>) -> Option<u128>
    decreases refs.len(),
{
    if refs.len() == 0 {
        None
    } else {
        match max_id(refs.drop_last()) {
            None => Some(refs.last().id.id),
            Some(m) => Some(
                if m >= refs.last().id.id {
                    m
                } else {
                    refs.last().id.id
                },
            ),
        }
    }
}

/// The highest identifier is the identifier of one of the references and
/// none is higher.
pub proof fn lemma_max_id(refs: Seq<EntityIdVer>)
    ensures
        max_id(refs) is None <==> refs.len() == 0,
        max_id(refs) matches Some(m) ==> (exists|k: int|
            0 <= k < refs.len() && (#[trigger] refs[k]).id.id == m) && forall|i: int|
            0 <= i < refs.len() ==> (#[trigger] refs[i]).id.id <= m,
    decreases refs.len(),
{
    if refs.len() > 0 {
        let shorter = refs.drop_last();
        lemma_max_id(shorter);
        let m = max_id(refs).unwrap();
        if m == refs.last().id.id {
            assert(refs[refs.len() - 1].id.id == m);
        } else {
            let k = choose|k: int| 0 <= k < shorter.len() && (#[trigger] shorter[k]).id.id == m;
            assert(refs[k].id.id == m);
        }
        assert forall|i: int| 0 <= i < refs.len() implies (#[trigger] refs[i]).id.id <= m by {
            if i < shorter.len() {
                assert(shorter[i] == refs[i]);
            }
        }
    }
}

/// The higher of two optional identifiers.
pub open spec fn higher_id(a: Option<u128>, b: Option<u128>) -> Option<u128> {
    match (a, b) {
        (None, _) => b,
        (_, None) => a,
        (Some(x), Some(y)) => Some(
            if x >= y {
                x
            } else {
                y
            },
        ),
    }
}

/// The identifier that a new entity gets where the records and the links
/// stand under these references: one more than the highest identifier in
/// use, or the start value where none is in use. There is none to give where
/// the highest possible identifier is in use.
pub open spec fn next_id_of(records: Seq<EntityIdVer>, links: Seq<EntityIdVer>) -> Option<
    EntityId,
> {
    match higher_id(max_id(records), max_id(links)) {
        None => Some(EntityId { id: ENTITY_ID_START }),
        Some(m) => if m < u128::MAX {
            Some(EntityId { id: (m + 1) as u128 })
        } else {
            None
        },
    }
}

/// The highest identifier among the references, if there is any.
fn highest_id(refs: &Vec<EntityIdVer>) -> (r: Option<u128>)
    ensures
        r == max_id(refs@),
{
    let n: usize = refs.len();
    let mut highest: Option<u128> = None;
    let mut i: usize = 0;
    while i < n
        invariant
            n == refs.len(),
            i <= n,
            highest == max_id(refs@.take(i as int)),
        decreases n - i,
    {
        assert(refs@.take(i + 1).drop_last() =~= refs@.take(i as int));
        let id: u128 = refs[i].id.id;
        highest = match highest {
            None => Some(id),
            Some(m) => Some(
                if m >= id {
                    m
                } else {
                    id
                },
            ),
        };
        i += 1;
    }
    assert(refs@.take(n as int) =~= refs@);
    highest
}

/// The identifier for a new entity, given the references of all records and
/// of all links.
pub fn next_entity_id(records: &Vec<EntityIdVer>, links: &Vec<EntityIdVer>) -> (r: Option<
    EntityId,
>)
    ensures
        r == next_id_of(records@, links@),
{
    let highest: Option<u128> = match (highest_id(records), highest_id(links)) {
        (None, b) => b,
        (a, None) => a,
        (Some(x), Some(y)) => Some(
            if x >= y {
                x
            } else {
                y
            },
        ),
    };
    match highest {
        None => Some(EntityId::start()),
        Some(m) => if m < u128::MAX {
            Some(EntityId::new(m + 1))
        } else {
            None
        },
    }
}

/// The version that the next version of an entity gets, given its latest
/// one: the first version where it has none, one more where it has one, and
/// none where the highest possible version is in use.
pub open spec fn next_version_of(latest: Option<u64>) -> Option<u64> {
    match latest {
        None => Some(crate::entity::ENTITY_VER_FIRST),
        Some(v) => if v < u64::MAX {
            Some((v + 1) as u64)
        } else {
            None
        },
    }
}

/// The version for the next version of an entity, given its latest one.
pub fn next_version(latest: Option<u64>) -> (r: Option<u64>)
    ensures
        r == next_version_of(latest),
{
    match latest {
        None => Some(crate::entity::ENTITY_VER_FIRST),
        Some(v) => if v < u64::MAX {
            Some(v + 1)
        } else {
            None
        },
    }
}

/// The stored version that `eid` stands for, given the latest version of
/// its entity: that version for a reference to the latest version, and else
/// the version that `eid` names.
pub fn resolve_ref(eid: &EntityIdVer, latest: Option<u64>) -> (r: Option<EntityIdVer>)
    ensures
        r == crate::container::contract::resolve(*eid, latest),
{
    if eid.is_latest() {
        match latest {
            None => None,
            Some(ver) => Some(EntityIdVer::new(eid.id, ver)),
        }
    } else {
        Some(*eid)
    }
}

} // verus!
