//! What follows from the transaction contract: the laws of put, get and
//! delete, of versions and identifiers, and of what keeps the tables
//! readable.

use crate::container::contract::resolve;
use crate::container::rows::{
    attributes_result, first_repeat, is_latest_view, latest_version_of, lemma_first_repeat,
    lemma_latest_version_of, lemma_latest_version_push, lemma_latest_view_members,
    lemma_link_rows_round_trip, lemma_max_id, link_rows, max_id, tags_result,
};
use crate::container::tables::{
    keys, lemma_keys_push, lemma_keys_remove, lemma_select_add, lemma_select_push,
    lemma_select_remove, lemma_select_rows_for, lemma_select_some_iff_key, rows_for, select,
    TablesView,
};
use crate::container::DataErrorView;
use crate::entity::{
    attribute_map, keys_of, EntityId, EntityIdVer, LinkView, RecordView, TagsAndAttributesView,
    ENTITY_VER_FIRST, ENTITY_VER_LATEST,
};
use vstd::prelude::*;

verus! {

/// Tags that are put on an entity without tags are the tags that are got
/// back: in the order in which they were put, which makes them the same set.
/// Put on an entity with tags, they follow the tags that it has.
pub proof fn lemma_tags_put_get(t: TablesView, eid: EntityIdVer, tags: Seq<Seq<char>>)
    ensures
        t.tags_put(eid, tags).tags_get(eid) == tags_result(eid, select(t.tags, eid) + tags),
        select(t.tags, eid).len() == 0 && tags.no_duplicates() ==> t.tags_put(eid, tags).tags_get(
            eid,
        ) == Ok::<Seq<Seq<char>>, DataErrorView>(tags),
        t.tags_put(eid, tags).attributes_get(eid) == t.attributes_get(eid),
{
    lemma_select_add(t.tags, rows_for(eid, tags), eid);
    lemma_select_rows_for(eid, tags, eid);
    if select(t.tags, eid).len() == 0 {
        assert(select(t.tags, eid) + tags =~= tags);
    }
}

/// The tags of one entity do not depend on what is put on another.
pub proof fn lemma_tags_put_get_other(
    t: TablesView,
    eid: EntityIdVer,
    tags: Seq<Seq<char>>,
    other: EntityIdVer,
)
    requires
        other != eid,
    ensures
        t.tags_put(eid, tags).tags_get(other) == t.tags_get(other),
{
    lemma_select_add(t.tags, rows_for(eid, tags), other);
    lemma_select_rows_for(eid, tags, other);
    assert(select(t.tags, other) + Seq::<Seq<char>>::empty() =~= select(t.tags, other));
}

/// Two lists of distinct tags that hold the same tags, in whatever order,
/// are got back as the same set.
pub proof fn lemma_tags_order_is_irrelevant(
    t: TablesView,
    eid: EntityIdVer,
    tags: Seq<Seq<char>>,
    shuffled: Seq<Seq<char>>,
)
    requires
        select(t.tags, eid).len() == 0,
        tags.no_duplicates(),
        shuffled.no_duplicates(),
        tags.to_set() == shuffled.to_set(),
    ensures
        t.tags_put(eid, tags).tags_get(eid) matches Ok(got) && (t.tags_put(eid, shuffled).tags_get(
            eid,
        ) matches Ok(other) && got.to_set() == other.to_set()),
{
    lemma_tags_put_get(t, eid, tags);
    lemma_tags_put_get(t, eid, shuffled);
}

/// Attributes that are put on an entity without attributes are the
/// attributes that are got back: the same keys with the same values.
pub proof fn lemma_attributes_put_get(
    t: TablesView,
    eid: EntityIdVer,
    attributes: Seq<(Seq<char>, Seq<char>)>,
)
    ensures
        t.attributes_put(eid, attributes).attributes_get(eid) == attributes_result(
            eid,
            select(t.attributes, eid) + attributes,
        ),
        select(t.attributes, eid).len() == 0 && keys_of(attributes).no_duplicates()
            ==> t.attributes_put(eid, attributes).attributes_get(eid) == Ok::<
            Seq<(Seq<char>, Seq<char>)>,
            DataErrorView,
        >(attributes),
        t.attributes_put(eid, attributes).tags_get(eid) == t.tags_get(eid),
{
    lemma_select_add(t.attributes, rows_for(eid, attributes), eid);
    lemma_select_rows_for(eid, attributes, eid);
    if select(t.attributes, eid).len() == 0 {
        assert(select(t.attributes, eid) + attributes =~= attributes);
    }
}

/// Two lists of attributes with distinct keys that stand for the same map,
/// in whatever order, are got back as the same map.
pub proof fn lemma_attributes_order_is_irrelevant(
    t: TablesView,
    eid: EntityIdVer,
    attributes: Seq<(Seq<char>, Seq<char>)>,
    shuffled: Seq<(Seq<char>, Seq<char>)>,
)
    requires
        select(t.attributes, eid).len() == 0,
        keys_of(attributes).no_duplicates(),
        keys_of(shuffled).no_duplicates(),
        attribute_map(attributes) == attribute_map(shuffled),
    ensures
        t.attributes_put(eid, attributes).attributes_get(eid) matches Ok(got) && (
        t.attributes_put(eid, shuffled).attributes_get(eid) matches Ok(other) && attribute_map(got)
            == attribute_map(other)),
{
    lemma_attributes_put_get(t, eid, attributes);
    lemma_attributes_put_get(t, eid, shuffled);
}

/// After its tags are deleted an entity has no tag, and after its
/// attributes are deleted it has no attribute.
pub proof fn lemma_del_get(t: TablesView, eid: EntityIdVer)
    ensures
        t.tags_del(eid).tags_get(eid) == Ok::<Seq<Seq<char>>, DataErrorView>(Seq::empty()),
        t.attributes_del(eid).attributes_get(eid) == Ok::<
            Seq<(Seq<char>, Seq<char>)>,
            DataErrorView,
        >(Seq::empty()),
        t.tags_and_attributes_del(eid).tags_and_attributes_get(eid) == Ok::<
            TagsAndAttributesView,
            DataErrorView,
        >(TagsAndAttributesView { tags: Seq::empty(), attributes: Seq::empty() }),
{
    lemma_select_remove(t.tags, eid, eid);
    lemma_select_remove(t.attributes, eid, eid);
    assert(keys_of(Seq::<(Seq<char>, Seq<char>)>::empty()) =~= Seq::<Seq<char>>::empty());
}

/// A tag that is stored twice for one entity is reported when the tags
/// are read: they are not returned as a set with the tag once.
pub proof fn lemma_duplicate_tag_is_reported(t: TablesView, eid: EntityIdVer, i: int, j: int)
    requires
        0 <= i < j < select(t.tags, eid).len(),
        select(t.tags, eid)[i] == select(t.tags, eid)[j],
    ensures
        t.tags_get(eid) matches Err(DataErrorView::DuplicateTag { eid: at, tag }) && at == eid
            && tag == select(t.tags, eid)[first_repeat(select(t.tags, eid))] && first_repeat(
            select(t.tags, eid),
        ) <= j,
{
    let rows = select(t.tags, eid);
    lemma_first_repeat(rows);
    if first_repeat(rows) > j {
        let prefix = rows.take(first_repeat(rows));
        assert(prefix[i] == prefix[j]);
    }
}

/// An attribute key that is stored twice for one entity is reported when
/// the attributes are read.
pub proof fn lemma_duplicate_key_is_reported(t: TablesView, eid: EntityIdVer, i: int, j: int)
    requires
        0 <= i < j < select(t.attributes, eid).len(),
        select(t.attributes, eid)[i].0 == select(t.attributes, eid)[j].0,
    ensures
        t.attributes_get(eid) matches Err(DataErrorView::DuplicateAttribute { eid: at, .. }) && at
            == eid,
{
    let rows = select(t.attributes, eid);
    let row_keys = keys_of(rows);
    assert(row_keys[i] == row_keys[j]);
}

/// A reference that names a version stands for that version, whatever the
/// latest version is; a reference to the latest version stands for the
/// latest version, and for nothing where there is none.
pub proof fn lemma_resolve(eid: EntityIdVer, latest: Option<u64>)
    ensures
        eid.ver != ENTITY_VER_LATEST ==> resolve(eid, latest) == Some(eid),
        eid.ver == ENTITY_VER_LATEST ==> resolve(eid, latest) == match latest {
            Some(ver) => Some(EntityIdVer { id: eid.id, ver }),
            None => None,
        },
{
}

/// The latest version of a record is a stored version of it, and the
/// highest one; a record without a latest version has no stored version.
pub proof fn lemma_latest_is_highest_stored(t: TablesView, id: EntityId)
    ensures
        t.record_get_ver_latest(id) matches Some(ver) ==> t.record_exists(EntityIdVer { id, ver }),
        forall|ver: u64| #[trigger]
            t.record_exists(EntityIdVer { id, ver }) ==> t.record_get_ver_latest(id) is Some && ver
                <= t.record_get_ver_latest(id).unwrap(),
{
    let refs = keys(t.records);
    lemma_latest_version_of(refs, id);
    if t.record_get_ver_latest(id) is Some {
        let ver = t.record_get_ver_latest(id).unwrap();
        lemma_select_some_iff_key(t.records, EntityIdVer { id, ver });
    }
    assert forall|ver: u64| #[trigger]
        t.record_exists(EntityIdVer { id, ver }) implies t.record_get_ver_latest(id) is Some && ver
        <= t.record_get_ver_latest(id).unwrap() by {
        let at = EntityIdVer { id, ver };
        lemma_select_some_iff_key(t.records, at);
        let k = choose|k: int| 0 <= k < refs.len() && refs[k] == at;
        assert(refs[k].id == id);
    }
}

/// The version that a put assigns is not stored before the put.
pub proof fn lemma_assigned_ref_is_new(t: TablesView, id: Option<EntityId>, at: EntityIdVer)
    requires
        t.record_put_ref(id) == Ok::<EntityIdVer, DataErrorView>(at),
    ensures
        !t.record_exists(at),
        at.ver != ENTITY_VER_LATEST,
{
    lemma_latest_is_highest_stored(t, at.id);
    if t.record_exists(at) {
        assert(t.record_exists(EntityIdVer { id: at.id, ver: at.ver }));
    }
}

/// A record that is put is the record that is got back under the reference
/// that the put returned, and under the reference to the latest version of
/// its identifier; and the put version is the latest one.
///
/// This holds of a record whose tags are distinct and whose keys are
/// distinct, where no tag and no attribute is left under the new reference.
pub proof fn lemma_record_put_get(
    t: TablesView,
    id: Option<EntityId>,
    record: RecordView,
    at: EntityIdVer,
)
    requires
        record.wf(),
        t.record_put_ref(id) == Ok::<EntityIdVer, DataErrorView>(at),
        select(t.tags, at).len() == 0,
        select(t.attributes, at).len() == 0,
    ensures
        t.record_put(id, record).record_get(at) == Ok::<
            Option<RecordView>,
            DataErrorView,
        >(Some(record)),
        t.record_put(id, record).record_get(
            EntityIdVer { id: at.id, ver: ENTITY_VER_LATEST },
        ) == Ok::<Option<RecordView>, DataErrorView>(Some(record)),
        t.record_put(id, record).is_latest_record(at),
{
    let after = t.record_put(id, record);
    lemma_assigned_ref_is_new(t, id, at);
    lemma_select_push(t.records, (at, record.data), at);
    assert(select(after.records, at) =~= seq![record.data]);
    lemma_tags_put_get(t, at, record.ta.tags);
    lemma_attributes_put_get(t.tags_put(at, record.ta.tags), at, record.ta.attributes);
    lemma_keys_push(t.records, (at, record.data));
    lemma_latest_version_push(keys(t.records), at, at.id);
    lemma_latest_is_highest_stored(t, at.id);
}

/// After a put, every list of the latest versions of all records names the
/// version that was put; and it names nothing else where the container held
/// no record before.
pub proof fn lemma_record_put_get_all_ids(
    t: TablesView,
    id: Option<EntityId>,
    record: RecordView,
    at: EntityIdVer,
    ids: Seq<EntityIdVer>,
)
    requires
        t.record_put_ref(id) == Ok::<EntityIdVer, DataErrorView>(at),
        is_latest_view(ids, keys(t.record_put(id, record).records)),
    ensures
        ids.contains(at),
        t.records.len() == 0 ==> ids == seq![at],
{
    let after = t.record_put(id, record);
    lemma_keys_push(t.records, (at, record.data));
    lemma_latest_version_push(keys(t.records), at, at.id);
    lemma_latest_is_highest_stored(t, at.id);
    lemma_latest_view_members(ids, keys(after.records), at);
    if t.records.len() == 0 {
        assert(keys(after.records) =~= seq![at]);
        let k = choose|k: int| 0 <= k < ids.len() && ids[k] == at;
        assert forall|i: int| 0 <= i < ids.len() implies ids[i] == at by {
            lemma_latest_view_members(ids, keys(after.records), ids[i]);
            lemma_latest_version_of(keys(after.records), ids[i].id);
            assert(keys(after.records).contains(ids[i]));
        }
        if ids.len() > 1 {
            assert(ids[0].id != ids[1].id);
        }
        assert(ids =~= seq![at]);
    }
}

/// After a version of a record is deleted it is not stored: deleting it
/// again deletes nothing, reading it gives nothing, and no list of the
/// latest versions of all records names it. The other versions stay.
pub proof fn lemma_record_del(t: TablesView, eid: EntityIdVer, ids: Seq<EntityIdVer>)
    requires
        is_latest_view(ids, keys(t.record_del(eid).records)),
    ensures
        !t.record_del(eid).record_exists(eid),
        t.record_del(eid).record_at(eid) == Ok::<Option<RecordView>, DataErrorView>(None),
        eid.ver != ENTITY_VER_LATEST ==> t.record_del(eid).record_get(eid) == Ok::<
            Option<RecordView>,
            DataErrorView,
        >(None),
        !ids.contains(eid),
        forall|other: EntityIdVer|
            other != eid ==> #[trigger] t.record_del(eid).record_exists(other) == t.record_exists(
                other,
            ),
{
    let after = t.record_del(eid);
    lemma_select_remove(t.records, eid, eid);
    lemma_latest_view_members(ids, keys(after.records), eid);
    if ids.contains(eid) {
        lemma_latest_version_of(keys(after.records), eid.id);
        lemma_keys_remove(t.records, eid, eid);
    }
    assert forall|other: EntityIdVer| other != eid implies #[trigger] after.record_exists(other)
        == t.record_exists(other) by {
        lemma_select_remove(t.records, eid, other);
    }
}

/// A link that is put is the link that is got back under the reference
/// that the put returned: the same endpoints on each side, in their order,
/// with the same tags and attributes.
///
/// This holds of a link with an endpoint, whose tags are distinct and whose
/// keys are distinct, where no tag and no attribute is left under the new
/// reference.
pub proof fn lemma_link_put_get(
    t: TablesView,
    id: Option<EntityId>,
    link: LinkView,
    at: EntityIdVer,
)
    requires
        link.wf(),
        link.from.len() + link.to.len() > 0,
        t.link_put_ref(id) == Ok::<EntityIdVer, DataErrorView>(at),
        select(t.tags, at).len() == 0,
        select(t.attributes, at).len() == 0,
    ensures
        t.link_put(id, link).link_get(at) == Ok::<
            Option<LinkView>,
            DataErrorView,
        >(Some(link)),
        t.link_put(id, link).is_latest_link(at),
{
    let after = t.link_put(id, link);
    let added = link_rows(link.from, link.to);
    let refs = keys(t.links);
    lemma_latest_version_of(refs, at.id);
    if select(t.links, at).len() > 0 {
        lemma_select_some_iff_key(t.links, at);
        let k = choose|k: int| 0 <= k < refs.len() && refs[k] == at;
        assert(refs[k].id == at.id);
    }
    lemma_select_add(t.links, rows_for(at, added), at);
    lemma_select_rows_for(at, added, at);
    assert(select(after.links, at) =~= added);
    lemma_link_rows_round_trip(link.from, link.to);
    lemma_tags_put_get(t, at, link.ta.tags);
    lemma_attributes_put_get(t.tags_put(at, link.ta.tags), at, link.ta.attributes);
    lemma_latest_after_rows(refs, at, added.len() as int);
    assert(keys(t.links + rows_for(at, added)) =~= refs + Seq::new(
        added.len(),
        |i: int| at,
    ));
}

/// The latest version of an identifier after one or more references to a
/// version of it that is higher than every one before.
proof fn lemma_latest_after_rows(refs: Seq<EntityIdVer>, at: EntityIdVer, count: int)
    requires
        count > 0,
        latest_version_of(refs, at.id) matches Some(ver) ==> ver <= at.ver,
    ensures
        latest_version_of(refs + Seq::new(count as nat, |i: int| at), at.id) == Some(at.ver),
    decreases count,
{
    let more = Seq::new(count as nat, |i: int| at);
    let fewer = Seq::new((count - 1) as nat, |i: int| at);
    assert(refs + more =~= (refs + fewer).push(at));
    lemma_latest_version_push(refs + fewer, at, at.id);
    if count > 1 {
        lemma_latest_after_rows(refs, at, count - 1);
    } else {
        assert(refs + fewer =~= refs);
    }
}

/// Successive puts of a record under one identifier give versions that
/// start at the first version, where the record had none, and go up by one;
/// and after each put the latest version is the one that was put.
pub proof fn lemma_successive_versions(
    t: TablesView,
    id: EntityId,
    record: RecordView,
    at: EntityIdVer,
)
    requires
        t.record_put_ref(Some(id)) == Ok::<EntityIdVer, DataErrorView>(at),
    ensures
        at.id == id,
        t.record_get_ver_latest(id) is None ==> at.ver == ENTITY_VER_FIRST,
        t.record_get_ver_latest(id) matches Some(latest) ==> at.ver == latest + 1,
        t.record_put(Some(id), record).record_get_ver_latest(id) == Some(at.ver),
        t.record_put(Some(id), record).record_put_ref(Some(id)) matches Ok(next) ==> next.id == id
            && next.ver == at.ver + 1,
{
    lemma_keys_push(t.records, (at, record.data));
    lemma_latest_version_push(keys(t.records), at, id);
}

/// The identifier that a new entity gets is in use by no record and by no
/// link, under any version.
pub proof fn lemma_next_id_is_fresh(t: TablesView, id: EntityId)
    requires
        t.next_id() == Some(id),
    ensures
        forall|at: EntityIdVer| at.id == id ==> !#[trigger] t.record_exists(at),
        forall|at: EntityIdVer| at.id == id ==> !#[trigger] t.link_exists(at),
        t.record_get_ver_latest(id) is None,
        t.link_get_ver_latest(id) is None,
{
    lemma_max_id(keys(t.records));
    lemma_max_id(keys(t.links));
    lemma_latest_version_of(keys(t.records), id);
    lemma_latest_version_of(keys(t.links), id);
    assert forall|at: EntityIdVer| at.id == id implies !#[trigger] t.record_exists(at) by {
        lemma_select_some_iff_key(t.records, at);
        if t.record_exists(at) {
            let k = choose|k: int| 0 <= k < keys(t.records).len() && keys(t.records)[k] == at;
            assert(keys(t.records)[k].id.id <= max_id(keys(t.records)).unwrap());
        }
    }
    assert forall|at: EntityIdVer| at.id == id implies !#[trigger] t.link_exists(at) by {
        lemma_select_some_iff_key(t.links, at);
        if t.link_exists(at) {
            let k = choose|k: int| 0 <= k < keys(t.links).len() && keys(t.links)[k] == at;
            assert(keys(t.links)[k].id.id <= max_id(keys(t.links)).unwrap());
        }
    }
    if t.record_get_ver_latest(id) is Some {
        let k = choose|k: int|
            0 <= k < keys(t.records).len() && (#[trigger] keys(t.records)[k]).id == id;
        assert(keys(t.records)[k].id.id <= max_id(keys(t.records)).unwrap());
    }
    if t.link_get_ver_latest(id) is Some {
        let k = choose|k: int|
            0 <= k < keys(t.links).len() && (#[trigger] keys(t.links)[k]).id == id;
        assert(keys(t.links)[k].id.id <= max_id(keys(t.links)).unwrap());
    }
}

/// A record that is put without an identifier is the first version of an
/// entity, and it keeps the identifiers of records and of links apart.
pub proof fn lemma_put_without_id_keeps_ids_apart(t: TablesView, record: RecordView, at: EntityIdVer)
    requires
        t.ids_disjoint(),
        t.record_put_ref(None) == Ok::<EntityIdVer, DataErrorView>(at),
    ensures
        at.ver == ENTITY_VER_FIRST,
        t.record_put(None, record).ids_disjoint(),
{
    let after = t.record_put(None, record);
    lemma_next_id_is_fresh(t, at.id);
    assert forall|of_record: EntityIdVer, of_link: EntityIdVer|
        #[trigger] after.record_exists(of_record) && #[trigger] after.link_exists(
            of_link,
        ) implies of_record.id != of_link.id by {
        lemma_select_push(t.records, (at, record.data), of_record);
        assert(t.link_exists(of_link));
        if of_record != at {
            assert(t.record_exists(of_record));
        }
    }
}

/// A put keeps the versions of every record a run without a gap.
pub proof fn lemma_put_keeps_versions_contiguous(
    t: TablesView,
    id: Option<EntityId>,
    record: RecordView,
    at: EntityIdVer,
    of: EntityId,
)
    requires
        t.record_versions_contiguous(of),
        t.record_put_ref(id) == Ok::<EntityIdVer, DataErrorView>(at),
    ensures
        t.record_put(id, record).record_versions_contiguous(of),
{
    let after = t.record_put(id, record);
    lemma_keys_push(t.records, (at, record.data));
    lemma_latest_version_push(keys(t.records), at, of);
    assert forall|ver: u64| #[trigger]
        after.record_exists(EntityIdVer { id: of, ver }) <==> (after.record_get_ver_latest(
            of,
        ) matches Some(latest) && ENTITY_VER_FIRST <= ver <= latest) by {
        let version = EntityIdVer { id: of, ver };
        lemma_select_push(t.records, (at, record.data), version);
        assert(t.record_exists(version) <==> (t.record_get_ver_latest(of) matches Some(latest)
            && ENTITY_VER_FIRST <= ver <= latest));
    }
}

/// Tables without rows are clean.
pub proof fn lemma_empty_is_clean()
    ensures
        TablesView::empty().clean(),
{
    let t = TablesView::empty();
    assert forall|eid: EntityIdVer| #[trigger] t.clean_at(eid) by {
        assert(keys_of(select(t.attributes, eid)) =~= Seq::<Seq<char>>::empty());
    }
}

/// Clean tables stay clean when a record with distinct tags and distinct
/// keys is put, where no tag and no attribute is left under the new
/// reference.
pub proof fn lemma_record_put_keeps_clean(
    t: TablesView,
    id: Option<EntityId>,
    record: RecordView,
    at: EntityIdVer,
)
    requires
        t.clean(),
        record.wf(),
        t.record_put_ref(id) == Ok::<EntityIdVer, DataErrorView>(at),
        select(t.tags, at).len() == 0,
        select(t.attributes, at).len() == 0,
    ensures
        t.record_put(id, record).clean(),
{
    let after = t.record_put(id, record);
    lemma_assigned_ref_is_new(t, id, at);
    assert forall|eid: EntityIdVer| #[trigger] after.clean_at(eid) by {
        assert(t.clean_at(eid));
        lemma_select_push(t.records, (at, record.data), eid);
        lemma_select_add(t.tags, rows_for(at, record.ta.tags), eid);
        lemma_select_rows_for(at, record.ta.tags, eid);
        lemma_select_add(t.attributes, rows_for(at, record.ta.attributes), eid);
        lemma_select_rows_for(at, record.ta.attributes, eid);
        if eid == at {
            assert(select(after.tags, eid) =~= record.ta.tags);
            assert(select(after.attributes, eid) =~= record.ta.attributes);
        } else {
            assert(select(after.tags, eid) =~= select(t.tags, eid));
            assert(select(after.attributes, eid) =~= select(t.attributes, eid));
        }
    }
}

/// Clean tables stay clean when a link with distinct tags and distinct keys
/// is put, where no tag and no attribute is left under the new reference.
pub proof fn lemma_link_put_keeps_clean(
    t: TablesView,
    id: Option<EntityId>,
    link: LinkView,
    at: EntityIdVer,
)
    requires
        t.clean(),
        link.wf(),
        t.link_put_ref(id) == Ok::<EntityIdVer, DataErrorView>(at),
        select(t.tags, at).len() == 0,
        select(t.attributes, at).len() == 0,
    ensures
        t.link_put(id, link).clean(),
{
    let after = t.link_put(id, link);
    assert forall|eid: EntityIdVer| #[trigger] after.clean_at(eid) by {
        assert(t.clean_at(eid));
        lemma_select_add(t.tags, rows_for(at, link.ta.tags), eid);
        lemma_select_rows_for(at, link.ta.tags, eid);
        lemma_select_add(t.attributes, rows_for(at, link.ta.attributes), eid);
        lemma_select_rows_for(at, link.ta.attributes, eid);
        if eid == at {
            assert(select(after.tags, eid) =~= link.ta.tags);
            assert(select(after.attributes, eid) =~= link.ta.attributes);
        } else {
            assert(select(after.tags, eid) =~= select(t.tags, eid));
            assert(select(after.attributes, eid) =~= select(t.attributes, eid));
        }
    }
}

/// Clean tables stay clean whatever is deleted.
pub proof fn lemma_del_keeps_clean(t: TablesView, gone: EntityIdVer)
    requires
        t.clean(),
    ensures
        t.tags_del(gone).clean(),
        t.attributes_del(gone).clean(),
        t.tags_and_attributes_del(gone).clean(),
        t.record_del(gone).clean(),
        t.link_del(gone).clean(),
{
    assert forall|eid: EntityIdVer|
        #![trigger t.tags_del(gone).clean_at(eid)]
        #![trigger t.attributes_del(gone).clean_at(eid)]
        #![trigger t.tags_and_attributes_del(gone).clean_at(eid)]
        #![trigger t.record_del(gone).clean_at(eid)]
        #![trigger t.link_del(gone).clean_at(eid)]
        t.tags_del(gone).clean_at(eid) && t.attributes_del(gone).clean_at(eid)
            && t.tags_and_attributes_del(gone).clean_at(eid) && t.record_del(gone).clean_at(eid)
            && t.link_del(gone).clean_at(eid) by {
        assert(t.clean_at(eid));
        lemma_select_remove(t.tags, gone, eid);
        lemma_select_remove(t.attributes, gone, eid);
        lemma_select_remove(t.records, gone, eid);
        assert(keys_of(Seq::<(Seq<char>, Seq<char>)>::empty()) =~= Seq::<Seq<char>>::empty());
    }
}

} // verus!
