//! The four tables of the relational encoding, and what it means to select
//! from them, to add to them and to delete from them.
//!
//! Every row of every table starts with the reference of the version of the
//! entity that it belongs to. The rest of the row is, for the table of
//! records, the optional payload; for the table of tags, one tag; for the
//! table of attributes, a key and a value; and for the table of links, a
//! direction and the reference of one endpoint.

use crate::entity::EntityIdVer;
use vstd::prelude::*;

verus! {

/// The rest of the rows that belong to `eid`, in the order of the rows.
pub open spec fn select<V>(rows: Seq<(EntityIdVer, V)>, eid: EntityIdVer) -> Seq<V>
    decreases rows.len(),
{
    if rows.len() == 0 {
        Seq::empty()
    } else {
        let before = select(rows.drop_last(), eid);
        if rows.last().0 == eid {
            before.push(rows.last().1)
        } else {
            before
        }
    }
}

/// The rows without those that belong to `eid`, in their order.
pub open spec fn remove<V>(rows: Seq<(EntityIdVer, V)>, eid: EntityIdVer) -> Seq<(EntityIdVer, V)>
    decreases rows.len(),
{
    if rows.len() == 0 {
        Seq::empty()
    } else {
        let before = remove(rows.drop_last(), eid);
        if rows.last().0 == eid {
            before
        } else {
            before.push(rows.last())
        }
    }
}

/// One row that belongs to `eid` for each of the values.
pub open spec fn rows_for<V>(eid: EntityIdVer, values: Seq<V>) -> Seq<(EntityIdVer, V)> {
    Seq::new(values.len(), |i: int| (eid, values[i]))
}

/// The references that the rows start with.
pub open spec fn keys<V>(rows: Seq<(EntityIdVer, V)>) -> Seq<EntityIdVer> {
    Seq::new(rows.len(), |i: int| rows[i].0)
}

/// The rest of every row, in order.
pub open spec fn values<V>(rows: Seq<(EntityIdVer, V)>) -> Seq<V> {
    Seq::new(rows.len(), |i: int| rows[i].1)
}

/// Selecting from rows followed by more rows.
pub proof fn lemma_select_add<V>(
    rows: Seq<(EntityIdVer, V)>,
    more: Seq<(EntityIdVer, V)>,
    eid: EntityIdVer,
)
    ensures
        select(rows + more, eid) == select(rows, eid) + select(more, eid),
    decreases more.len(),
{
    if more.len() == 0 {
        assert(rows + more =~= rows);
        assert(select(rows, eid) + select(more, eid) =~= select(rows, eid));
    } else {
        assert((rows + more).drop_last() =~= rows + more.drop_last());
        assert((rows + more).last() == more.last());
        lemma_select_add(rows, more.drop_last(), eid);
        assert(select(rows + more, eid) =~= select(rows, eid) + select(more, eid));
    }
}

/// Selecting after one more row.
pub proof fn lemma_select_push<V>(rows: Seq<(EntityIdVer, V)>, row: (EntityIdVer, V), eid: EntityIdVer)
    ensures
        select(rows.push(row), eid) == if row.0 == eid {
            select(rows, eid).push(row.1)
        } else {
            select(rows, eid)
        },
{
    assert(rows.push(row).drop_last() =~= rows);
}

/// The rows made for an entity belong to it, and to no other.
pub proof fn lemma_select_rows_for<V>(at: EntityIdVer, values: Seq<V>, eid: EntityIdVer)
    ensures
        select(rows_for(at, values), eid) == if at == eid {
            values
        } else {
            Seq::empty()
        },
    decreases values.len(),
{
    if values.len() > 0 {
        let shorter = values.drop_last();
        assert(rows_for(at, values).drop_last() =~= rows_for(at, shorter));
        lemma_select_rows_for(at, shorter, eid);
        if at == eid {
            assert(select(rows_for(at, values), eid) =~= values);
        }
    } else {
        assert(values =~= Seq::empty());
    }
}

/// Nothing is left of an entity once its rows are removed, and the rows of
/// every other entity stay.
pub proof fn lemma_select_remove<V>(rows: Seq<(EntityIdVer, V)>, gone: EntityIdVer, eid: EntityIdVer)
    ensures
        select(remove(rows, gone), eid) == if gone == eid {
            Seq::empty()
        } else {
            select(rows, eid)
        },
    decreases rows.len(),
{
    if rows.len() > 0 {
        lemma_select_remove(rows.drop_last(), gone, eid);
        if rows.last().0 != gone {
            lemma_select_push(remove(rows.drop_last(), gone), rows.last(), eid);
        }
    }
}

/// An entity has rows exactly if its reference is one of the references of
/// the rows.
pub proof fn lemma_select_some_iff_key<V>(rows: Seq<(EntityIdVer, V)>, eid: EntityIdVer)
    ensures
        select(rows, eid).len() > 0 <==> keys(rows).contains(eid),
    decreases rows.len(),
{
    let all = keys(rows);
    if rows.len() > 0 {
        let shorter = rows.drop_last();
        lemma_select_some_iff_key(shorter, eid);
        let fewer = keys(shorter);
        if fewer.contains(eid) {
            let k = choose|k: int| 0 <= k < fewer.len() && fewer[k] == eid;
            assert(all[k] == eid);
        }
        if rows.last().0 == eid {
            assert(all[all.len() - 1] == eid);
        }
        if all.contains(eid) {
            let k = choose|k: int| 0 <= k < all.len() && all[k] == eid;
            if k < fewer.len() {
                assert(fewer[k] == eid);
            }
        }
    }
}

/// The references of rows followed by one more row.
pub proof fn lemma_keys_push<V>(rows: Seq<(EntityIdVer, V)>, row: (EntityIdVer, V))
    ensures
        keys(rows.push(row)) == keys(rows).push(row.0),
{
    assert(keys(rows.push(row)) =~= keys(rows).push(row.0));
}

/// The references of the rows left after a removal are those of the rows
/// that were there, but for the one removed.
pub proof fn lemma_keys_remove<V>(rows: Seq<(EntityIdVer, V)>, gone: EntityIdVer, eid: EntityIdVer)
    ensures
        keys(remove(rows, gone)).contains(eid) <==> keys(rows).contains(eid) && eid != gone,
{
    lemma_select_some_iff_key(rows, eid);
    lemma_select_some_iff_key(remove(rows, gone), eid);
    lemma_select_remove(rows, gone, eid);
}

/// The four tables.
#[derive(Debug)]
pub struct Tables {
    pub records: Vec<(EntityIdVer, Option<Vec<u8>>)>,
    pub tags: Vec<(EntityIdVer, String)>,
    pub attributes: Vec<(EntityIdVer, (String, String))>,
    pub links: Vec<(EntityIdVer, (bool, EntityIdVer))>,
}

/// Mathematical model of [`Tables`]: the rows of each table, in the order in
/// which they were added.
pub struct TablesView {
    pub records: Seq<(EntityIdVer, Option<Seq<u8>>)>,
    pub tags: Seq<(EntityIdVer, Seq<char>)>,
    pub attributes: Seq<(EntityIdVer, (Seq<char>, Seq<char>))>,
    pub links: Seq<(EntityIdVer, (bool, EntityIdVer))>,
}

impl View for Tables {
    type V = TablesView;

    open spec fn view(&self) -> TablesView {
        TablesView {
            records: self.records.deep_view(),
            tags: self.tags.deep_view(),
            attributes: self.attributes.deep_view(),
            links: self.links.deep_view(),
        }
    }
}

impl TablesView {
    /// Four tables without rows.
    pub open spec fn empty() -> TablesView {
        TablesView {
            records: Seq::empty(),
            tags: Seq::empty(),
            attributes: Seq::empty(),
            links: Seq::empty(),
        }
    }
}

/// Removes the rows that belong to `eid` and says how many there were.
pub fn delete_rows<T: DeepView>(rows: &mut Vec<(EntityIdVer, T)>, eid: &EntityIdVer) -> (count:
    usize)
    ensures
        final(rows).deep_view() == remove(old(rows).deep_view(), *eid),
        count == select(old(rows).deep_view(), *eid).len(),
{
    let mut all: Vec<(EntityIdVer, T)> = Vec::new();
    core::mem::swap(&mut all, rows);
    let ghost before = all.deep_view();
    let ghost plain = all@;
    let mut count: usize = 0;
    assert(plain.len() == all.len());
    assert(rows.deep_view() =~= remove(before.take(0), *eid));
    for row in it: all
        invariant
            it.seq() == plain,
            before.len() == plain.len(),
            plain.len() <= usize::MAX,
            forall|k: int|
                0 <= k < plain.len() ==> before[k] == (plain[k].0, plain[k].1.deep_view()),
            rows.deep_view() == remove(before.take(it.index() as int), *eid),
            count == select(before.take(it.index() as int), *eid).len(),
            count <= it.index(),
    {
        let ghost i = it.index() as int;
        let ghost shorter = rows.deep_view();
        assert(before.take(i + 1).drop_last() =~= before.take(i));
        assert(before.take(i + 1).last() == (row.0, row.1.deep_view()));
        if row.0.id.id == eid.id.id && row.0.ver == eid.ver {
            count += 1;
        } else {
            rows.push(row);
            assert(rows.deep_view() =~= shorter.push((row.0, row.1.deep_view())));
        }
    }
    assert(before.take(before.len() as int) =~= before);
    count
}

/// The references that the rows start with.
pub fn row_keys<T: DeepView>(rows: &Vec<(EntityIdVer, T)>) -> (r: Vec<EntityIdVer>)
    ensures
        r@ == keys(rows.deep_view()),
{
    let mut r: Vec<EntityIdVer> = Vec::new();
    let n: usize = rows.len();
    let mut i: usize = 0;
    while i < n
        invariant
            n == rows.len(),
            i <= n,
            r@ == keys(rows.deep_view()).take(i as int),
        decreases n - i,
    {
        r.push(rows[i].0);
        assert(r@ =~= keys(rows.deep_view()).take(i + 1));
        i += 1;
    }
    assert(keys(rows.deep_view()).take(n as int) =~= keys(rows.deep_view()));
    r
}

/// Whether two references are the same.
pub fn same_ref(a: &EntityIdVer, b: &EntityIdVer) -> (r: bool)
    ensures
        r == (*a == *b),
{
    a.id.id == b.id.id && a.ver == b.ver
}

impl Tables {
    /// Four tables without rows.
    pub fn new() -> (tables: Tables)
        ensures
            tables@ == TablesView::empty(),
    {
        let tables = Tables {
            records: Vec::new(),
            tags: Vec::new(),
            attributes: Vec::new(),
            links: Vec::new(),
        };
        assert(tables@.records =~= Seq::empty());
        assert(tables@.tags =~= Seq::empty());
        assert(tables@.attributes =~= Seq::empty());
        assert(tables@.links =~= Seq::empty());
        tables
    }

    /// The tags in the rows of `eid`.
    pub fn select_tags(&self, eid: &EntityIdVer) -> (r: Vec<String>)
        ensures
            r.deep_view() == select(self@.tags, *eid),
    {
        let ghost all = self.tags.deep_view();
        let mut r: Vec<String> = Vec::new();
        let n: usize = self.tags.len();
        let mut i: usize = 0;
        assert(r.deep_view() =~= select(all.take(0), *eid));
        while i < n
            invariant
                n == self.tags.len(),
                all == self.tags.deep_view(),
                i <= n,
                r.deep_view() == select(all.take(i as int), *eid),
            decreases n - i,
        {
            let ghost before = r.deep_view();
            assert(all.take(i + 1).drop_last() =~= all.take(i as int));
            assert(all.take(i + 1).last() == (self.tags@[i as int].0, self.tags@[i as int].1@));
            if same_ref(&self.tags[i].0, eid) {
                r.push(self.tags[i].1.clone());
                assert(r.deep_view() =~= before.push(self.tags@[i as int].1@));
            }
            i += 1;
        }
        assert(all.take(n as int) =~= all);
        r
    }

    /// The keys and values in the rows of `eid`.
    pub fn select_attributes(&self, eid: &EntityIdVer) -> (r: Vec<(String, String)>)
        ensures
            r.deep_view() == select(self@.attributes, *eid),
    {
        let ghost all = self.attributes.deep_view();
        let mut r: Vec<(String, String)> = Vec::new();
        let n: usize = self.attributes.len();
        let mut i: usize = 0;
        assert(r.deep_view() =~= select(all.take(0), *eid));
        while i < n
            invariant
                n == self.attributes.len(),
                all == self.attributes.deep_view(),
                i <= n,
                r.deep_view() == select(all.take(i as int), *eid),
            decreases n - i,
        {
            let ghost before = r.deep_view();
            let ghost row = self.attributes@[i as int];
            assert(all.take(i + 1).drop_last() =~= all.take(i as int));
            assert(all.take(i + 1).last() == (row.0, (row.1.0@, row.1.1@)));
            if same_ref(&self.attributes[i].0, eid) {
                let key = self.attributes[i].1.0.clone();
                let value = self.attributes[i].1.1.clone();
                r.push((key, value));
                assert(r.deep_view() =~= before.push((row.1.0@, row.1.1@)));
            }
            i += 1;
        }
        assert(all.take(n as int) =~= all);
        r
    }

    /// The payloads in the rows of `eid`.
    pub fn select_payloads(&self, eid: &EntityIdVer) -> (r: Vec<Option<Vec<u8>>>)
        ensures
            r.deep_view() == select(self@.records, *eid),
    {
        let ghost all = self.records.deep_view();
        let mut r: Vec<Option<Vec<u8>>> = Vec::new();
        let n: usize = self.records.len();
        let mut i: usize = 0;
        assert(r.deep_view() =~= select(all.take(0), *eid));
        while i < n
            invariant
                n == self.records.len(),
                all == self.records.deep_view(),
                i <= n,
                r.deep_view() == select(all.take(i as int), *eid),
            decreases n - i,
        {
            let ghost before = r.deep_view();
            let ghost row = self.records@[i as int];
            assert(all.take(i + 1).drop_last() =~= all.take(i as int));
            assert(all.take(i + 1).last() == (row.0, row.1.deep_view()));
            if same_ref(&self.records[i].0, eid) {
                let payload: Option<Vec<u8>> = match &self.records[i].1 {
                    None => None,
                    Some(bytes) => {
                        let copy = bytes.clone();
                        assert(copy.deep_view() =~= bytes.deep_view());
                        Some(copy)
                    },
                };
                r.push(payload);
                assert(r.deep_view() =~= before.push(row.1.deep_view()));
            }
            i += 1;
        }
        assert(all.take(n as int) =~= all);
        r
    }

    /// The directions and endpoints in the rows of `eid`.
    pub fn select_links(&self, eid: &EntityIdVer) -> (r: Vec<(bool, EntityIdVer)>)
        ensures
            r@ == select(self@.links, *eid),
    {
        let ghost all = self.links.deep_view();
        let mut r: Vec<(bool, EntityIdVer)> = Vec::new();
        let n: usize = self.links.len();
        let mut i: usize = 0;
        while i < n
            invariant
                n == self.links.len(),
                all == self.links.deep_view(),
                i <= n,
                r@ == select(all.take(i as int), *eid),
            decreases n - i,
        {
            let ghost row = self.links@[i as int];
            assert(all.take(i + 1).drop_last() =~= all.take(i as int));
            assert(all.take(i + 1).last() == row);
            if same_ref(&self.links[i].0, eid) {
                r.push(self.links[i].1);
            }
            i += 1;
        }
        assert(all.take(n as int) =~= all);
        r
    }
}

/// A copy of an optional payload.
pub fn copy_payload(data: &Option<Vec<u8>>) -> (r: Option<Vec<u8>>)
    ensures
        r.deep_view() == data.deep_view(),
{
    match data {
        None => None,
        Some(bytes) => {
            let copy = bytes.clone();
            assert(copy.deep_view() =~= bytes.deep_view());
            Some(copy)
        },
    }
}

/// Appends `x` to `v`.
pub fn push_row<T: DeepView>(v: &mut Vec<T>, x: T)
    ensures
        final(v).deep_view() == old(v).deep_view().push(x.deep_view()),
{
    v.push(x);
    assert(v.deep_view() =~= old(v).deep_view().push(x.deep_view()));
}

impl Tables {
    /// Every tag of every row, in the order of the rows.
    pub fn all_tags(&self) -> (r: Vec<String>)
        ensures
            r.deep_view() == values(self@.tags),
    {
        let ghost all = values(self@.tags);
        let mut r: Vec<String> = Vec::new();
        let n: usize = self.tags.len();
        let mut i: usize = 0;
        assert(r.deep_view() =~= all.take(0));
        while i < n
            invariant
                n == self.tags.len(),
                all == values(self@.tags),
                i <= n,
                r.deep_view() == all.take(i as int),
            decreases n - i,
        {
            push_row(&mut r, self.tags[i].1.clone());
            assert(all.take(i as int).push(self.tags@[i as int].1@) =~= all.take(i + 1));
            i += 1;
        }
        assert(all.take(n as int) =~= all);
        r
    }

    /// The key and value of every row, in the order of the rows.
    pub fn all_attributes(&self) -> (r: Vec<(String, String)>)
        ensures
            r.deep_view() == values(self@.attributes),
    {
        let ghost all = values(self@.attributes);
        let mut r: Vec<(String, String)> = Vec::new();
        let n: usize = self.attributes.len();
        let mut i: usize = 0;
        assert(r.deep_view() =~= all.take(0));
        while i < n
            invariant
                n == self.attributes.len(),
                all == values(self@.attributes),
                i <= n,
                r.deep_view() == all.take(i as int),
            decreases n - i,
        {
            let key = self.attributes[i].1.0.clone();
            let value = self.attributes[i].1.1.clone();
            push_row(&mut r, (key, value));
            assert(all.take(i as int).push((key@, value@)) =~= all.take(i + 1));
            i += 1;
        }
        assert(all.take(n as int) =~= all);
        r
    }

    /// Tables with the same rows.
    pub fn copy(&self) -> (r: Tables)
        ensures
            r@ == self@,
    {
        let ghost all = self@;
        let mut records: Vec<(EntityIdVer, Option<Vec<u8>>)> = Vec::new();
        let n: usize = self.records.len();
        let mut i: usize = 0;
        assert(records.deep_view() =~= all.records.take(0));
        while i < n
            invariant
                n == self.records.len(),
                all == self@,
                i <= n,
                records.deep_view() == all.records.take(i as int),
            decreases n - i,
        {
            let payload: Option<Vec<u8>> = match &self.records[i].1 {
                None => None,
                Some(bytes) => {
                    let copy = bytes.clone();
                    assert(copy.deep_view() =~= bytes.deep_view());
                    Some(copy)
                },
            };
            push_row(&mut records, (self.records[i].0, payload));
            assert(all.records.take(i as int).push(all.records[i as int]) =~= all.records.take(
                i + 1,
            ));
            i += 1;
        }
        assert(all.records.take(n as int) =~= all.records);
        let mut tags: Vec<(EntityIdVer, String)> = Vec::new();
        let n: usize = self.tags.len();
        let mut i: usize = 0;
        assert(tags.deep_view() =~= all.tags.take(0));
        while i < n
            invariant
                n == self.tags.len(),
                all == self@,
                i <= n,
                tags.deep_view() == all.tags.take(i as int),
            decreases n - i,
        {
            push_row(&mut tags, (self.tags[i].0, self.tags[i].1.clone()));
            assert(all.tags.take(i as int).push(all.tags[i as int]) =~= all.tags.take(i + 1));
            i += 1;
        }
        assert(all.tags.take(n as int) =~= all.tags);
        let mut attributes: Vec<(EntityIdVer, (String, String))> = Vec::new();
        let n: usize = self.attributes.len();
        let mut i: usize = 0;
        assert(attributes.deep_view() =~= all.attributes.take(0));
        while i < n
            invariant
                n == self.attributes.len(),
                all == self@,
                i <= n,
                attributes.deep_view() == all.attributes.take(i as int),
            decreases n - i,
        {
            let key = self.attributes[i].1.0.clone();
            let value = self.attributes[i].1.1.clone();
            push_row(&mut attributes, (self.attributes[i].0, (key, value)));
            assert(all.attributes.take(i as int).push(all.attributes[i as int])
                =~= all.attributes.take(i + 1));
            i += 1;
        }
        assert(all.attributes.take(n as int) =~= all.attributes);
        let mut links: Vec<(EntityIdVer, (bool, EntityIdVer))> = Vec::new();
        let n: usize = self.links.len();
        let mut i: usize = 0;
        assert(links.deep_view() =~= all.links.take(0));
        while i < n
            invariant
                n == self.links.len(),
                all == self@,
                i <= n,
                links.deep_view() == all.links.take(i as int),
            decreases n - i,
        {
            push_row(&mut links, self.links[i]);
            assert(all.links.take(i as int).push(all.links[i as int]) =~= all.links.take(i + 1));
            i += 1;
        }
        assert(all.links.take(n as int) =~= all.links);
        Tables { records, tags, attributes, links }
    }
}

} // verus!
