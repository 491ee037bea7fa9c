//! The `item` adapter: the five operations bound to the item table, and the
//! laws they obey.
use crate::ctx::Ctx;
use crate::error::Error;
use crate::filter::{ListOptions, LIST_LIMIT_DEFAULT};
use crate::item::{groups_error, groups_match, Column, Item, ItemFilter, ItemForCreate,
    ItemForCreateInner, ItemForUpdate, ItemView};
use crate::model::{
    create_spec, delete_spec, get_spec, groups_view, ids_ascending, items_view, lemma_index_of,
    list_spec, matcher, min_nat, not_found, update_spec, updated_row, ModelManager, TableView,
};
use crate::time::{lemma_text_round_trip, Timestamp};
use vstd::prelude::*;

verus! {

/// Create, read, list, update and delete of items.
pub struct ItemBmc;

impl ItemBmc {
    /// Creates an item owned by the acting user, stamped at `now`; returns
    /// its key.
    pub fn create(ctx: &Ctx, mm: &mut ModelManager, item_c: ItemForCreate, now: Timestamp) -> (r:
        Result<i64, Error>)
        requires
            old(mm)@.wf(),
            now.valid(),
        ensures
            final(mm)@.wf(),
            (final(mm)@, r) == create_spec(old(mm)@, ctx.uid(), item_c.name@, now),
    {
        let item_c = ItemForCreateInner { name: item_c.name, owner_id: ctx.user_id() };
        mm.insert(ctx, item_c, now)
    }

    /// The item with key `id`.
    pub fn get(ctx: &Ctx, mm: &ModelManager, id: i64) -> (r: Result<Item, Error>)
        requires
            mm@.wf(),
        ensures
            match get_spec(mm@, id) {
                Ok(v) => r is Ok && r.unwrap()@ == v,
                Err(e) => r == Err::<Item, Error>(e),
            },
    {
        mm.get_row(id)
    }

    /// The items that match some filter group, ordered and paged.
    pub fn list(
        ctx: &Ctx,
        mm: &ModelManager,
        filter: Option<Vec<ItemFilter>>,
        list_options: Option<ListOptions>,
    ) -> (r: Result<Vec<Item>, Error>)
        requires
            mm@.wf(),
        ensures
            match list_spec(mm@, groups_view(filter), list_options) {
                Ok(s) => r is Ok && items_view(r.unwrap()@) == s,
                Err(e) => r == Err::<Vec<Item>, Error>(e),
            },
    {
        mm.list_rows(filter, list_options)
    }

    /// Writes the present fields of `item_u` into item `id`, stamped at `now`.
    pub fn update(ctx: &Ctx, mm: &mut ModelManager, id: i64, item_u: ItemForUpdate, now: Timestamp) -> (r:
        Result<(), Error>)
        requires
            old(mm)@.wf(),
            now.valid(),
        ensures
            final(mm)@.wf(),
            (final(mm)@, r) == update_spec(old(mm)@, ctx.uid(), id, item_u, now),
    {
        mm.update_row(ctx, id, item_u, now)
    }

    /// Deletes item `id`.
    pub fn delete(ctx: &Ctx, mm: &mut ModelManager, id: i64) -> (r: Result<(), Error>)
        requires
            old(mm)@.wf(),
        ensures
            final(mm)@.wf(),
            (final(mm)@, r) == delete_spec(old(mm)@, id),
    {
        mm.delete_row(id)
    }
}

/// Creating and then reading the new key gives a row with the given name,
/// owned, created and last modified by the acting user, with equal creation
/// and modification times; the create succeeds unless the name is taken in a
/// table of unique names or no key is left.
pub proof fn law_create_then_get(t: TableView, uid: i64, name: Seq<char>, now: Timestamp)
    requires
        t.wf(),
        now.valid(),
    ensures
        ({
            let (t2, r) = create_spec(t, uid, name, now);
            &&& !(t.unique_names && t.name_taken(name, None)) && t.next_id < i64::MAX ==> r is Ok
            &&& r is Ok ==> get_spec(t2, r.unwrap()) is Ok
            &&& r is Ok ==> {
                let v = get_spec(t2, r.unwrap()).unwrap();
                &&& v.id == r.unwrap()
                &&& v.name == name
                &&& v.owner_id == uid
                &&& v.cid == uid
                &&& v.mid == uid
                &&& v.ctime == now
                &&& v.mtime == now
                &&& v.ctime == v.mtime
            }
        }),
{
    let (t2, r) = create_spec(t, uid, name, now);
    if r is Ok {
        let n = t.rows.len() as int;
        assert(ids_ascending(t2.rows)) by {
            assert forall|i: int, j: int| 0 <= i < j < t2.rows.len() implies t2.rows[i].id
                < t2.rows[j].id by {
                if j == n {
                    assert(t2.rows[i] == t.rows[i]);
                } else {
                    assert(t2.rows[i] == t.rows[i]);
                    assert(t2.rows[j] == t.rows[j]);
                }
            }
        }
        lemma_index_of(t2, r.unwrap(), n);
    }
}

/// Updating with at least one present field and then reading gives exactly
/// the present fields changed, the others as they were, the acting user as
/// modifier, and a modification time later than both the creation time and the
/// previous modification time, given a clock that reads later than both. The
/// update succeeds unless the new name is taken in a table of unique names.
pub proof fn law_update_then_get(t: TableView, uid: i64, id: i64, u: ItemForUpdate, now: Timestamp)
    requires
        t.wf(),
        now.valid(),
        !u.is_empty_spec(),
        get_spec(t, id) is Ok,
        get_spec(t, id).unwrap().ctime.before(now),
        get_spec(t, id).unwrap().mtime.before(now),
    ensures
        ({
            let (t2, r) = update_spec(t, uid, id, u, now);
            let prev = get_spec(t, id).unwrap();
            &&& !(t.unique_names && u.name is Some && t.name_taken(u.name.unwrap()@, Some(id)))
                ==> r is Ok
            &&& r is Ok ==> get_spec(t2, id) == Ok::<ItemView, Error>(updated_row(prev, u, uid, now))
            &&& r is Ok ==> {
                let v = get_spec(t2, id).unwrap();
                &&& v.name == (match u.name {
                    Some(n) => n@,
                    None => prev.name,
                })
                &&& v.owner_id == (match u.owner_id {
                    Some(o) => o,
                    None => prev.owner_id,
                })
                &&& v.id == prev.id && v.origin == prev.origin && v.grapes == prev.grapes
                &&& v.good_with == prev.good_with && v.acid == prev.acid
                &&& v.alcohol == prev.alcohol && v.body == prev.body && v.tannin == prev.tannin
                &&& v.cid == prev.cid && v.ctime == prev.ctime
                &&& v.mid == uid
                &&& v.ctime.before(v.mtime)
                &&& prev.mtime.before(v.mtime)
            }
        }),
{
    let (t2, r) = update_spec(t, uid, id, u, now);
    let i = t.index_of(id);
    if r is Ok {
        assert(t2.rows[i].id == id);
        assert(ids_ascending(t2.rows)) by {
            assert forall|a: int, b: int| 0 <= a < b < t2.rows.len() implies t2.rows[a].id
                < t2.rows[b].id by {
                assert(t2.rows[a].id == t.rows[a].id);
                assert(t2.rows[b].id == t.rows[b].id);
            }
        }
        lemma_index_of(t2, id, i);
    }
}

/// Reading, updating or deleting a key that no row has fails with not-found
/// and leaves the table as it was (an update with at least one field).
pub proof fn law_missing_key(t: TableView, uid: i64, id: i64, u: ItemForUpdate, now: Timestamp)
    requires
        !t.has_id(id),
        !u.is_empty_spec(),
    ensures
        get_spec(t, id) == Err::<ItemView, Error>(not_found(id)),
        update_spec(t, uid, id, u, now) == (t, Err::<(), Error>(not_found(id))),
        delete_spec(t, id) == (t, Err::<(), Error>(not_found(id))),
{
}

/// An update with no field present is rejected before anything is written.
pub proof fn law_empty_update_rejected(t: TableView, uid: i64, id: i64, u: ItemForUpdate, now: Timestamp)
    requires
        u.is_empty_spec(),
    ensures
        update_spec(t, uid, id, u, now) == (t, Err::<(), Error>(Error::Validation)),
{
}

/// The create input always yields a field to insert: it cannot be empty.
pub proof fn law_create_fields_present(inner: ItemForCreateInner)
    ensures
        inner.fields_spec().len() > 0,
{
}

proof fn lemma_filter_all(s: Seq<ItemView>, p: spec_fn(ItemView) -> bool)
    requires
        forall|i: int| 0 <= i < s.len() ==> p(#[trigger] s[i]),
    ensures
        s.filter(p) == s,
    decreases s.len(),
{
    reveal(Seq::filter);
    if s.len() > 0 {
        lemma_filter_all(s.drop_last(), p);
        assert(s.drop_last().push(s.last()) =~= s);
    }
}

proof fn lemma_filter_none(s: Seq<ItemView>, p: spec_fn(ItemView) -> bool)
    requires
        forall|i: int| 0 <= i < s.len() ==> !p(#[trigger] s[i]),
    ensures
        s.filter(p) == Seq::<ItemView>::empty(),
    decreases s.len(),
{
    reveal(Seq::filter);
    if s.len() > 0 {
        lemma_filter_none(s.drop_last(), p);
    } else {
        assert(s =~= Seq::<ItemView>::empty());
    }
}

/// A list with no filter and no options gives the rows in ascending key
/// order, cut at the default limit.
pub proof fn law_list_defaults(t: TableView)
    requires
        t.wf(),
    ensures
        list_spec(t, None, None) == Ok::<Seq<ItemView>, Error>(
            t.rows.subrange(0, min_nat(LIST_LIMIT_DEFAULT as nat, t.rows.len()) as int),
        ),
        ids_ascending(list_spec(t, None, None).unwrap()),
{
    let gs = Seq::<ItemFilter>::empty();
    lemma_filter_all(t.rows, matcher(gs));
    let v = list_spec(t, None, None).unwrap();
    assert forall|i: int, j: int| 0 <= i < j < v.len() implies v[i].id < v[j].id by {
        assert(v[i] == t.rows[i]);
        assert(v[j] == t.rows[j]);
    }
}

/// A list whose filter no row matches gives an empty sequence, not an error.
pub proof fn law_list_no_match(t: TableView, gs: Seq<ItemFilter>, o: Option<ListOptions>)
    requires
        groups_error(gs) is None,
        forall|i: int| 0 <= i < t.rows.len() ==> !groups_match(gs, #[trigger] t.rows[i]),
    ensures
        list_spec(t, Some(gs), o) == Ok::<Seq<ItemView>, Error>(Seq::empty()),
{
    lemma_filter_none(t.rows, matcher(gs));
    let opts = crate::model::options_or_default(o);
    assert(crate::model::page(crate::model::ordered(Seq::<ItemView>::empty(), opts), opts)
        =~= Seq::<ItemView>::empty());
}

/// The stamps of every stored row survive writing them as text and reading
/// them back: the same instant, and the same bytes when written again.
pub proof fn law_row_stamps_round_trip(t: TableView, id: i64)
    requires
        t.wf(),
        get_spec(t, id) is Ok,
    ensures
        ({
            let v = get_spec(t, id).unwrap();
            &&& Timestamp::parse_spec(v.ctime.text()) == Some(v.ctime)
            &&& Timestamp::parse_spec(v.ctime.text()).unwrap().text() == v.ctime.text()
            &&& Timestamp::parse_spec(v.mtime.text()) == Some(v.mtime)
            &&& Timestamp::parse_spec(v.mtime.text()).unwrap().text() == v.mtime.text()
        }),
{
    let v = get_spec(t, id).unwrap();
    assert(v == t.rows[t.index_of(id)]);
    lemma_text_round_trip(v.ctime);
    lemma_text_round_trip(v.mtime);
}

/// In a table of unique names, a second create of a name just created fails
/// as a duplicate, and the first row stays as it was.
pub proof fn law_duplicate_create(
    t: TableView,
    uid1: i64,
    uid2: i64,
    name: Seq<char>,
    now1: Timestamp,
    now2: Timestamp,
)
    requires
        t.wf(),
        t.unique_names,
    ensures
        ({
            let (t2, r1) = create_spec(t, uid1, name, now1);
            let (t3, r2) = create_spec(t2, uid2, name, now2);
            r1 is Ok ==> {
                &&& r2 == Err::<i64, Error>(Error::Duplicate { column: Column::Name })
                &&& t3 == t2
                &&& get_spec(t3, r1.unwrap()) == get_spec(t2, r1.unwrap())
            }
        }),
{
    let (t2, r1) = create_spec(t, uid1, name, now1);
    if r1 is Ok {
        let n = t.rows.len() as int;
        assert(t2.rows[n].name == name);
        assert(t2.name_taken(name, None));
    }
}

} // verus!
