//! The table model and the engine over it: audit-stamped create, get, list,
//! update and delete of items, with not-found, duplicate and validation
//! semantics.
use crate::ctx::Ctx;
use crate::error::Error;
use crate::filter::ListOptions;
use crate::item::{
    apply_fields, apply_spec, audit_fields, blank_item, groups_error, groups_match,
    stamp_audit, Column, Item, ItemFilter, ItemForCreateInner, ItemForUpdate,
    ItemView, ITEM_TABLE,
};
use crate::order::{sort_rows, sorted_by};
use crate::time::Timestamp;
use vstd::prelude::*;

verus! {

/// Keys strictly ascend in storage order.
pub open spec fn ids_ascending(rows: Seq<ItemView>) -> bool {
    forall|i: int, j: int| 0 <= i < j < rows.len() ==> rows[i].id < rows[j].id
}

/// The mathematical value of a table: its rows in storage order, the key the
/// next insert gets, and whether names must be unique.
pub struct TableView {
    pub rows: Seq<ItemView>,
    pub next_id: i64,
    pub unique_names: bool,
}

impl TableView {
    /// Keys are positive, below the next key and ascending in storage order;
    /// stamps are valid instants; names are distinct where they must be.
    pub open spec fn wf(self) -> bool {
        &&& 1 <= self.next_id
        &&& forall|i: int| 0 <= i < self.rows.len() ==> 1 <= #[trigger] self.rows[i].id < self.next_id
        &&& ids_ascending(self.rows)
        &&& forall|i: int| 0 <= i < self.rows.len() ==> (#[trigger] self.rows[i]).ctime.valid()
            && self.rows[i].mtime.valid()
        &&& self.unique_names ==> forall|i: int, j: int|
            0 <= i < self.rows.len() && 0 <= j < self.rows.len() && i != j
                ==> #[trigger] self.rows[i].name != #[trigger] self.rows[j].name
    }

    pub open spec fn has_id(self, id: i64) -> bool {
        exists|i: int| 0 <= i < self.rows.len() && (#[trigger] self.rows[i]).id == id
    }

    /// The position of the row with key `id`, or -1.
    pub open spec fn index_of(self, id: i64) -> int {
        if self.has_id(id) {
            choose|i: int| 0 <= i < self.rows.len() && (#[trigger] self.rows[i]).id == id
        } else {
            -1
        }
    }

    /// Some row other than the one with key `except` has this name.
    pub open spec fn name_taken(self, name: Seq<char>, except: Option<i64>) -> bool {
        exists|i: int|
            0 <= i < self.rows.len() && (#[trigger] self.rows[i]).name == name && Some(
                self.rows[i].id,
            ) != except
    }
}

pub open spec fn not_found(id: i64) -> Error {
    Error::EntityNotFound { entity: ITEM_TABLE, id }
}

/// The row an insert of `name`, owned by `owner`, by `uid` at `now` stores
/// under key `id`.
pub open spec fn created_row(id: i64, name: Seq<char>, owner: i64, uid: i64, now: Timestamp) -> ItemView {
    ItemView {
        id,
        owner_id: owner,
        name,
        cid: uid,
        ctime: now,
        mid: uid,
        mtime: now,
        ..blank_item(id)
    }
}

/// Row `r` after the update `u` by `uid` at `now`.
pub open spec fn updated_row(r: ItemView, u: ItemForUpdate, uid: i64, now: Timestamp) -> ItemView {
    ItemView {
        name: match u.name {
            Some(n) => n@,
            None => r.name,
        },
        owner_id: match u.owner_id {
            Some(o) => o,
            None => r.owner_id,
        },
        mid: uid,
        mtime: now,
        ..r
    }
}

/// The table and the result after `uid` creates an item named `name` at
/// `now`: the owner is the acting user.
pub open spec fn create_spec(t: TableView, uid: i64, name: Seq<char>, now: Timestamp) -> (
    TableView,
    Result<i64, Error>,
) {
    insert_spec(t, uid, name, uid, now)
}

/// The table and the result after `uid` inserts an item named `name` and
/// owned by `owner` at `now`.
pub open spec fn insert_spec(t: TableView, uid: i64, name: Seq<char>, owner: i64, now: Timestamp) -> (
    TableView,
    Result<i64, Error>,
) {
    if t.unique_names && t.name_taken(name, None) {
        (t, Err(Error::Duplicate { column: Column::Name }))
    } else if t.next_id == i64::MAX {
        (t, Err(Error::KeySpaceExhausted))
    } else {
        (
            TableView {
                rows: t.rows.push(created_row(t.next_id, name, owner, uid, now)),
                next_id: (t.next_id + 1) as i64,
                ..t
            },
            Ok(t.next_id),
        )
    }
}

/// The row with key `id`.
pub open spec fn get_spec(t: TableView, id: i64) -> Result<ItemView, Error> {
    if t.has_id(id) {
        Ok(t.rows[t.index_of(id)])
    } else {
        Err(not_found(id))
    }
}

/// The table and the result after `uid` updates row `id` with `u` at `now`.
pub open spec fn update_spec(t: TableView, uid: i64, id: i64, u: ItemForUpdate, now: Timestamp) -> (
    TableView,
    Result<(), Error>,
) {
    if u.is_empty_spec() {
        (t, Err(Error::Validation))
    } else if !t.has_id(id) {
        (t, Err(not_found(id)))
    } else if t.unique_names && u.name is Some && t.name_taken(u.name.unwrap()@, Some(id)) {
        (t, Err(Error::Duplicate { column: Column::Name }))
    } else {
        let i = t.index_of(id);
        (TableView { rows: t.rows.update(i, updated_row(t.rows[i], u, uid, now)), ..t }, Ok(()))
    }
}

/// The table and the result after deleting row `id`.
pub open spec fn delete_spec(t: TableView, id: i64) -> (TableView, Result<(), Error>) {
    if t.has_id(id) {
        (TableView { rows: t.rows.remove(t.index_of(id)), ..t }, Ok(()))
    } else {
        (t, Err(not_found(id)))
    }
}

pub open spec fn matcher(gs: Seq<ItemFilter>) -> spec_fn(ItemView) -> bool {
    |r: ItemView| groups_match(gs, r)
}

pub open spec fn options_or_default(o: Option<ListOptions>) -> ListOptions {
    match o {
        Some(x) => x,
        None => ListOptions { limit: None, offset: None, order_by: None },
    }
}

/// `s` in the order the options ask for; as stored where they ask none.
pub open spec fn ordered(s: Seq<ItemView>, o: ListOptions) -> Seq<ItemView> {
    match o.order_by {
        Some(ob) => sorted_by(ob, s),
        None => s,
    }
}

pub open spec fn min_nat(a: nat, b: nat) -> nat {
    if a < b { a } else { b }
}

/// The page of `s` that the offset and limit select.
pub open spec fn page(s: Seq<ItemView>, o: ListOptions) -> Seq<ItemView> {
    let start = min_nat(o.offset_or_zero(), s.len());
    let end = min_nat(start + o.limit_or_default(), s.len());
    s.subrange(start as int, end as int)
}

/// The result of a list: the rows that match some filter group, ordered, then
/// paged; the first unsupported operator fails it.
pub open spec fn list_spec(t: TableView, fs: Option<Seq<ItemFilter>>, o: Option<ListOptions>) -> Result<
    Seq<ItemView>,
    Error,
> {
    let gs = match fs {
        Some(v) => v,
        None => Seq::empty(),
    };
    match groups_error(gs) {
        Some(e) => Err(e),
        None => {
            let opts = options_or_default(o);
            Ok(page(ordered(t.rows.filter(matcher(gs)), opts), opts))
        },
    }
}

pub open spec fn groups_view(fs: Option<Vec<ItemFilter>>) -> Option<Seq<ItemFilter>> {
    match fs {
        Some(v) => Some(v@),
        None => None,
    }
}

pub open spec fn items_view(s: Seq<Item>) -> Seq<ItemView> {
    s.map_values(|r: Item| r@)
}

/// The rows of the table, owned by the process and handed to each call.
pub struct ModelManager {
    rows: Vec<Item>,
    next_id: i64,
    unique_names: bool,
}

impl View for ModelManager {
    type V = TableView;

    closed spec fn view(&self) -> TableView {
        TableView { rows: items_view(self.rows@), next_id: self.next_id, unique_names: self.unique_names }
    }
}

pub proof fn lemma_index_of(t: TableView, id: i64, i: int)
    requires
        ids_ascending(t.rows),
        0 <= i < t.rows.len(),
        t.rows[i].id == id,
    ensures
        t.has_id(id),
        t.index_of(id) == i,
{
    assert(t.has_id(id));
    let j = t.index_of(id);
    if j < i {
        assert(t.rows[j].id < t.rows[i].id);
    } else if i < j {
        assert(t.rows[i].id < t.rows[j].id);
    }
}

impl ModelManager {
    /// An empty table; `unique_names` says whether the schema holds names
    /// unique.
    pub fn new(unique_names: bool) -> (r: ModelManager)
        ensures
            r@.wf(),
            r@.rows.len() == 0,
            r@.next_id == 1,
            r@.unique_names == unique_names,
    {
        let r = ModelManager { rows: Vec::new(), next_id: 1, unique_names };
        assert(r@.rows =~= Seq::<ItemView>::empty());
        r
    }

    /// An empty table whose key sequence starts at `first_id`.
    pub fn with_first_id(unique_names: bool, first_id: i64) -> (r: ModelManager)
        requires
            first_id >= 1,
        ensures
            r@.wf(),
            r@.rows.len() == 0,
            r@.next_id == first_id,
            r@.unique_names == unique_names,
    {
        let r = ModelManager { rows: Vec::new(), next_id: first_id, unique_names };
        assert(r@.rows =~= Seq::<ItemView>::empty());
        r
    }

    /// The position of the row with key `id`.
    fn find(&self, id: i64) -> (r: Option<usize>)
        requires
            self@.wf(),
        ensures
            r is Some <==> self@.has_id(id),
            r is Some ==> r.unwrap() as int == self@.index_of(id),
    {
        let mut i: usize = 0;
        while i < self.rows.len()
            invariant
                self@.wf(),
                i <= self.rows@.len(),
                forall|k: int| 0 <= k < i ==> (#[trigger] self@.rows[k]).id != id,
            decreases self.rows.len() - i,
        {
            if self.rows[i].id == id {
                proof {
                    lemma_index_of(self@, id, i as int);
                }
                return Some(i);
            }
            i = i + 1;
        }
        None
    }

    /// Whether a row other than `except` has this name.
    fn name_taken(&self, name: &String, except: Option<i64>) -> (r: bool)
        ensures
            r == self@.name_taken(name@, except),
    {
        let mut i: usize = 0;
        while i < self.rows.len()
            invariant
                i <= self.rows@.len(),
                forall|k: int|
                    0 <= k < i ==> !((#[trigger] self@.rows[k]).name == name@ && Some(
                        self@.rows[k].id,
                    ) != except),
            decreases self.rows.len() - i,
        {
            if self.rows[i].name == *name {
                let other = match except {
                    Some(e) => self.rows[i].id != e,
                    None => true,
                };
                if other {
                    assert(self@.rows[i as int].name == name@);
                    return true;
                }
            }
            i = i + 1;
        }
        false
    }
}

proof fn lemma_insert_fields(inner: ItemForCreateInner, id: i64, uid: i64, now: Timestamp)
    ensures
        apply_spec(blank_item(id), inner.fields_spec() + audit_fields(uid, now, true)) == Ok::<
            ItemView,
            Error,
        >(created_row(id, inner.name@, inner.owner_id, uid, now)),
{
    let fs = inner.fields_spec() + audit_fields(uid, now, true);
    reveal_with_fuel(apply_spec, 7);
    assert(fs.drop_first().drop_first().drop_first().drop_first().drop_first().drop_first()
        =~= Seq::<crate::item::FieldView>::empty());
    assert(fs.drop_first()[0] == fs[1]);
    assert(fs.drop_first().drop_first()[0] == fs[2]);
    assert(fs.drop_first().drop_first().drop_first()[0] == fs[3]);
    assert(fs.drop_first().drop_first().drop_first().drop_first()[0] == fs[4]);
    assert(fs.drop_first().drop_first().drop_first().drop_first().drop_first()[0] == fs[5]);
}

proof fn lemma_update_fields(r: ItemView, u: ItemForUpdate, uid: i64, now: Timestamp)
    ensures
        apply_spec(r, u.fields_spec() + audit_fields(uid, now, false)) == Ok::<ItemView, Error>(
            updated_row(r, u, uid, now),
        ),
{
    let fs = u.fields_spec() + audit_fields(uid, now, false);
    reveal_with_fuel(apply_spec, 5);
    assert(fs.drop_first()[0] == fs[1]);
    if fs.len() >= 3 {
        assert(fs.drop_first().drop_first()[0] == fs[2]);
    }
    if fs.len() >= 4 {
        assert(fs.drop_first().drop_first().drop_first()[0] == fs[3]);
        assert(fs.drop_first().drop_first().drop_first().drop_first() =~= Seq::<
            crate::item::FieldView,
        >::empty());
    }
    if fs.len() == 3 {
        assert(fs.drop_first().drop_first().drop_first() =~= Seq::<crate::item::FieldView>::empty());
    }
    if fs.len() == 2 {
        assert(fs.drop_first().drop_first() =~= Seq::<crate::item::FieldView>::empty());
    }
    assert(updated_row(r, u, uid, now) == match apply_spec(r, fs) {
        Ok(v) => v,
        Err(_) => r,
    });
}

impl ModelManager {
    /// Inserts a row for `inner`, stamped as created and modified by the
    /// acting user at `now`; returns its new key.
    pub fn insert(&mut self, ctx: &Ctx, inner: ItemForCreateInner, now: Timestamp) -> (r: Result<i64, Error>)
        requires
            old(self)@.wf(),
            now.valid(),
        ensures
            final(self)@.wf(),
            (final(self)@, r) == insert_spec(old(self)@, ctx.uid(), inner.name@, inner.owner_id, now),
    {
        if self.unique_names && self.name_taken(&inner.name, None) {
            return Err(Error::Duplicate { column: Column::Name });
        }
        if self.next_id == i64::MAX {
            return Err(Error::KeySpaceExhausted);
        }
        let id = self.next_id;
        let uid = ctx.user_id();
        proof {
            lemma_insert_fields(inner, id, uid, now);
        }
        let ghost name = inner.name@;
        let ghost owner = inner.owner_id;
        let mut fields = inner.fields();
        stamp_audit(&mut fields, uid, now, true);
        let mut row = Item::blank(id);
        match apply_fields(&mut row, fields) {
            Ok(()) => {},
            Err(e) => {
                return Err(e);
            },
        }
        let ghost old_rows = self.rows@;
        self.rows.push(row);
        self.next_id = id + 1;
        proof {
            assert(items_view(self.rows@) =~= items_view(old_rows).push(
                created_row(id, name, owner, uid, now),
            ));
            let t = self@;
            assert forall|i: int, j: int|
                0 <= i < t.rows.len() && 0 <= j < t.rows.len() && i != j && t.unique_names
                    implies #[trigger] t.rows[i].name != #[trigger] t.rows[j].name by {
                if i < old_rows.len() && j < old_rows.len() {
                    assert(t.rows[i] == old(self)@.rows[i]);
                    assert(t.rows[j] == old(self)@.rows[j]);
                } else if i < old_rows.len() {
                    assert(t.rows[i] == old(self)@.rows[i]);
                } else {
                    assert(t.rows[j] == old(self)@.rows[j]);
                }
            }
        }
        Ok(id)
    }

    /// Overwrites the present fields of row `id`, stamped as modified by the
    /// acting user at `now`.
    pub fn update_row(&mut self, ctx: &Ctx, id: i64, u: ItemForUpdate, now: Timestamp) -> (r: Result<(), Error>)
        requires
            old(self)@.wf(),
            now.valid(),
        ensures
            final(self)@.wf(),
            (final(self)@, r) == update_spec(old(self)@, ctx.uid(), id, u, now),
    {
        if u.name.is_none() && u.owner_id.is_none() {
            return Err(Error::Validation);
        }
        let idx = match self.find(id) {
            Some(i) => i,
            None => {
                return Err(Error::EntityNotFound { entity: ITEM_TABLE, id });
            },
        };
        if self.unique_names {
            if let Some(n) = &u.name {
                if self.name_taken(n, Some(id)) {
                    return Err(Error::Duplicate { column: Column::Name });
                }
            }
        }
        let uid = ctx.user_id();
        let ghost u0 = u;
        let mut row = self.rows[idx].duplicate();
        proof {
            lemma_update_fields(row@, u0, uid, now);
        }
        let mut fields = u.fields();
        stamp_audit(&mut fields, uid, now, false);
        match apply_fields(&mut row, fields) {
            Ok(()) => {},
            Err(e) => {
                return Err(e);
            },
        }
        let ghost old_rows = self.rows@;
        self.rows.set(idx, row);
        proof {
            assert(items_view(self.rows@) =~= items_view(old_rows).update(
                idx as int,
                updated_row(old(self)@.rows[idx as int], u0, uid, now),
            ));
            let t = self@;
            let t0 = old(self)@;
            assert forall|i: int, j: int|
                0 <= i < t.rows.len() && 0 <= j < t.rows.len() && i != j && t.unique_names
                    implies #[trigger] t.rows[i].name != #[trigger] t.rows[j].name by {
                if i == idx && u0.name is Some {
                    assert(t0.rows[j].id != id);
                } else if j == idx && u0.name is Some {
                    assert(t0.rows[i].id != id);
                }
            }
        }
        Ok(())
    }

    /// Removes row `id`.
    pub fn delete_row(&mut self, id: i64) -> (r: Result<(), Error>)
        requires
            old(self)@.wf(),
        ensures
            final(self)@.wf(),
            (final(self)@, r) == delete_spec(old(self)@, id),
    {
        let idx = match self.find(id) {
            Some(i) => i,
            None => {
                return Err(Error::EntityNotFound { entity: ITEM_TABLE, id });
            },
        };
        let ghost old_rows = self.rows@;
        self.rows.remove(idx);
        proof {
            assert(items_view(self.rows@) =~= items_view(old_rows).remove(idx as int));
            let t = self@;
            let t0 = old(self)@;
            assert forall|i: int, j: int| 0 <= i < j < t.rows.len() implies t.rows[i].id
                < t.rows[j].id by {
                let i0 = if i < idx { i } else { i + 1 };
                let j0 = if j < idx { j } else { j + 1 };
                assert(t.rows[i] == t0.rows[i0]);
                assert(t.rows[j] == t0.rows[j0]);
            }
            assert forall|i: int, j: int|
                0 <= i < t.rows.len() && 0 <= j < t.rows.len() && i != j && t.unique_names
                    implies #[trigger] t.rows[i].name != #[trigger] t.rows[j].name by {
                let i0 = if i < idx { i } else { i + 1 };
                let j0 = if j < idx { j } else { j + 1 };
                assert(t.rows[i] == t0.rows[i0]);
                assert(t.rows[j] == t0.rows[j0]);
            }
        }
        Ok(())
    }

    /// A copy of row `id`.
    pub fn get_row(&self, id: i64) -> (r: Result<Item, Error>)
        requires
            self@.wf(),
        ensures
            match get_spec(self@, id) {
                Ok(v) => r is Ok && r.unwrap()@ == v,
                Err(e) => r == Err::<Item, Error>(e),
            },
    {
        match self.find(id) {
            Some(i) => Ok(self.rows[i].duplicate()),
            None => Err(Error::EntityNotFound { entity: ITEM_TABLE, id }),
        }
    }
}

proof fn lemma_groups_ok(gs: Seq<ItemFilter>)
    requires
        groups_error(gs) is None,
    ensures
        forall|i: int| 0 <= i < gs.len() ==> (#[trigger] gs[i]).error_spec() is None,
    decreases gs.len(),
{
    if gs.len() > 0 {
        lemma_groups_ok(gs.drop_first());
        assert forall|i: int| 0 <= i < gs.len() implies (#[trigger] gs[i]).error_spec() is None by {
            if i > 0 {
                assert(gs[i] == gs.drop_first()[i - 1]);
            }
        }
    }
}

/// Fails with the first unsupported operator among the groups.
pub fn groups_check(gs: &Vec<ItemFilter>) -> (r: Result<(), Error>)
    ensures
        match groups_error(gs@) {
            Some(e) => r == Err::<(), Error>(e),
            None => r is Ok,
        },
{
    let mut i: usize = 0;
    assert(gs@.subrange(0, gs@.len() as int) =~= gs@);
    while i < gs.len()
        invariant
            i <= gs@.len(),
            groups_error(gs@) == groups_error(gs@.subrange(i as int, gs@.len() as int)),
        decreases gs.len() - i,
    {
        let ghost rest = gs@.subrange(i as int, gs@.len() as int);
        assert(rest[0] == gs@[i as int]);
        assert(rest.drop_first() =~= gs@.subrange(i + 1, gs@.len() as int));
        match gs[i].check() {
            Ok(()) => {},
            Err(e) => {
                return Err(e);
            },
        }
        i = i + 1;
    }
    assert(gs@.subrange(i as int, gs@.len() as int).len() == 0);
    Ok(())
}

/// Whether the row matches some group (any row, where there is none).
pub fn groups_test(gs: &Vec<ItemFilter>, item: &Item) -> (r: bool)
    requires
        groups_error(gs@) is None,
    ensures
        r == groups_match(gs@, item@),
{
    proof {
        lemma_groups_ok(gs@);
    }
    if gs.len() == 0 {
        return true;
    }
    let mut i: usize = 0;
    while i < gs.len()
        invariant
            i <= gs@.len(),
            forall|k: int| 0 <= k < gs@.len() ==> (#[trigger] gs@[k]).error_spec() is None,
            forall|k: int| 0 <= k < i ==> !(#[trigger] gs@[k]).matches(item@),
        decreases gs.len() - i,
    {
        if gs[i].test(item) {
            return true;
        }
        i = i + 1;
    }
    false
}

impl ModelManager {
    /// The rows that match some filter group, ordered and paged as the options
    /// say.
    pub fn list_rows(&self, filters: Option<Vec<ItemFilter>>, options: Option<ListOptions>) -> (r:
        Result<Vec<Item>, Error>)
        requires
            self@.wf(),
        ensures
            match list_spec(self@, groups_view(filters), options) {
                Ok(s) => r is Ok && items_view(r.unwrap()@) == s,
                Err(e) => r == Err::<Vec<Item>, Error>(e),
            },
    {
        let gs: Vec<ItemFilter> = match filters {
            Some(v) => v,
            None => Vec::new(),
        };
        assert(gs@ == match groups_view(filters) {
            Some(v) => v,
            None => Seq::<ItemFilter>::empty(),
        });
        match groups_check(&gs) {
            Ok(()) => {},
            Err(e) => {
                return Err(e);
            },
        }
        let ghost pred = matcher(gs@);
        let ghost rows = self@.rows;
        let mut matched: Vec<Item> = Vec::new();
        let mut i: usize = 0;
        while i < self.rows.len()
            invariant
                i <= self.rows@.len(),
                rows == self@.rows,
                groups_error(gs@) is None,
                pred == matcher(gs@),
                items_view(matched@) == rows.subrange(0, i as int).filter(pred),
            decreases self.rows.len() - i,
        {
            let ghost before = matched@;
            let keep = groups_test(&gs, &self.rows[i]);
            if keep {
                matched.push(self.rows[i].duplicate());
            }
            proof {
                let s = rows.subrange(0, i + 1);
                assert(s.drop_last() =~= rows.subrange(0, i as int));
                assert(s.last() == self.rows@[i as int]@);
                reveal(Seq::filter);
                if keep {
                    assert(items_view(matched@) =~= items_view(before).push(self.rows@[i as int]@));
                }
            }
            i = i + 1;
        }
        assert(rows.subrange(0, rows.len() as int) =~= rows);
        let o = match options {
            Some(x) => x,
            None => ListOptions::new(),
        };
        let ghost m = items_view(matched@);
        let ghost ord = ordered(m, o);
        let sorted = match o.order_by {
            Some(ob) => sort_rows(ob, matched),
            None => matched,
        };
        assert(items_view(sorted@) == ord);
        let len = sorted.len();
        let off: u64 = match o.offset {
            Some(x) => x,
            None => 0,
        };
        let lim: u64 = match o.limit {
            Some(x) => x,
            None => crate::filter::LIST_LIMIT_DEFAULT,
        };
        let start: usize = if off < len as u64 { off as usize } else { len };
        let rem: usize = len - start;
        let take: usize = if lim < rem as u64 { lim as usize } else { rem };
        let end: usize = start + take;
        let mut out: Vec<Item> = Vec::new();
        let mut k: usize = start;
        while k < end
            invariant
                start <= k <= end <= len == sorted@.len(),
                ord == items_view(sorted@),
                items_view(out@) == ord.subrange(start as int, k as int),
            decreases end - k,
        {
            let ghost before = out@;
            out.push(sorted[k].duplicate());
            proof {
                assert(items_view(out@) =~= items_view(before).push(sorted@[k as int]@));
                assert(items_view(out@) =~= ord.subrange(start as int, k + 1));
            }
            k = k + 1;
        }
        assert(page(ord, o) =~= ord.subrange(start as int, end as int));
        Ok(out)
    }
}

} // verus!
