//! The `item` entity: its record, its create / update inputs, its filter, and
//! the projection of inputs onto column / value pairs.
use crate::error::Error;
use crate::filter::{OpValsInt64, OpValsString, OpValsValue};
use crate::time::Timestamp;
use vstd::prelude::*;

verus! {

/// The name of the table.
pub const ITEM_TABLE: &'static str = "item";

/// The columns of the table.
#[derive(Debug, Clone, Copy, PartialEq, Eq, Structural)]
pub enum Column {
    Id,
    OwnerId,
    Name,
    Origin,
    Grapes,
    GoodWith,
    Acid,
    Alcohol,
    Body,
    Tannin,
    Cid,
    Ctime,
    Mid,
    Mtime,
}

/// A value to be written into a column.
#[derive(Debug, Clone)]
pub enum FieldValue {
    Int(i64),
    Small(i8),
    Text(String),
    Time(Timestamp),
}

/// One column / value pair of an insert or an update.
#[derive(Debug, Clone)]
pub struct Field {
    pub column: Column,
    pub value: FieldValue,
}

/// A stored row.
#[derive(Debug, Clone)]
pub struct Item {
    pub id: i64,
    pub owner_id: i64,
    pub name: String,
    pub origin: String,
    pub grapes: String,
    pub good_with: String,
    pub acid: i8,
    pub alcohol: i8,
    pub body: i8,
    pub tannin: i8,
    /// Creator and time of creation.
    pub cid: i64,
    pub ctime: Timestamp,
    /// Last modifier and time of the last modification.
    pub mid: i64,
    pub mtime: Timestamp,
}

/// What a caller supplies to create an item.
pub struct ItemForCreate {
    pub name: String,
}

/// What a caller may change on an item; absent fields stay as they are.
pub struct ItemForUpdate {
    pub name: Option<String>,
    pub owner_id: Option<i64>,
}

/// The create input together with the owner taken from the context.
pub struct ItemForCreateInner {
    pub name: String,
    pub owner_id: i64,
}

/// The mathematical value of a row: text columns as character sequences.
pub struct ItemView {
    pub id: i64,
    pub owner_id: i64,
    pub name: Seq<char>,
    pub origin: Seq<char>,
    pub grapes: Seq<char>,
    pub good_with: Seq<char>,
    pub acid: i8,
    pub alcohol: i8,
    pub body: i8,
    pub tannin: i8,
    pub cid: i64,
    pub ctime: Timestamp,
    pub mid: i64,
    pub mtime: Timestamp,
}

impl View for Item {
    type V = ItemView;

    open spec fn view(&self) -> ItemView {
        ItemView {
            id: self.id,
            owner_id: self.owner_id,
            name: self.name@,
            origin: self.origin@,
            grapes: self.grapes@,
            good_with: self.good_with@,
            acid: self.acid,
            alcohol: self.alcohol,
            body: self.body,
            tannin: self.tannin,
            cid: self.cid,
            ctime: self.ctime,
            mid: self.mid,
            mtime: self.mtime,
        }
    }
}

/// The mathematical value of a field value.
pub enum FieldValueView {
    Int(i64),
    Small(i8),
    Text(Seq<char>),
    Time(Timestamp),
}

pub struct FieldView {
    pub column: Column,
    pub value: FieldValueView,
}

impl View for Field {
    type V = FieldView;

    open spec fn view(&self) -> FieldView {
        FieldView {
            column: self.column,
            value: match self.value {
                FieldValue::Int(v) => FieldValueView::Int(v),
                FieldValue::Small(v) => FieldValueView::Small(v),
                FieldValue::Text(s) => FieldValueView::Text(s@),
                FieldValue::Time(t) => FieldValueView::Time(t),
            },
        }
    }
}

pub open spec fn fields_view(fs: Seq<Field>) -> Seq<FieldView> {
    fs.map_values(|f: Field| f@)
}

/// The first instant of 1970, the creation time of a blank row.
pub open spec fn epoch() -> Timestamp {
    Timestamp { year: 1970, month: 1, day: 1, hour: 0, minute: 0, second: 0, micro: 0 }
}

/// The row that an insert starts from: the key, and every other column at its
/// default.
pub open spec fn blank_item(id: i64) -> ItemView {
    ItemView {
        id,
        owner_id: 0,
        name: Seq::empty(),
        origin: Seq::empty(),
        grapes: Seq::empty(),
        good_with: Seq::empty(),
        acid: 0,
        alcohol: 0,
        body: 0,
        tannin: 0,
        cid: 0,
        ctime: epoch(),
        mid: 0,
        mtime: epoch(),
    }
}

/// Writing one field into a row; a value of the wrong kind for its column is a
/// mapping error.
pub open spec fn set_spec(r: ItemView, f: FieldView) -> Result<ItemView, Error> {
    match (f.column, f.value) {
        (Column::Id, FieldValueView::Int(v)) => Ok(ItemView { id: v, ..r }),
        (Column::OwnerId, FieldValueView::Int(v)) => Ok(ItemView { owner_id: v, ..r }),
        (Column::Name, FieldValueView::Text(v)) => Ok(ItemView { name: v, ..r }),
        (Column::Origin, FieldValueView::Text(v)) => Ok(ItemView { origin: v, ..r }),
        (Column::Grapes, FieldValueView::Text(v)) => Ok(ItemView { grapes: v, ..r }),
        (Column::GoodWith, FieldValueView::Text(v)) => Ok(ItemView { good_with: v, ..r }),
        (Column::Acid, FieldValueView::Small(v)) => Ok(ItemView { acid: v, ..r }),
        (Column::Alcohol, FieldValueView::Small(v)) => Ok(ItemView { alcohol: v, ..r }),
        (Column::Body, FieldValueView::Small(v)) => Ok(ItemView { body: v, ..r }),
        (Column::Tannin, FieldValueView::Small(v)) => Ok(ItemView { tannin: v, ..r }),
        (Column::Cid, FieldValueView::Int(v)) => Ok(ItemView { cid: v, ..r }),
        (Column::Ctime, FieldValueView::Time(v)) => Ok(ItemView { ctime: v, ..r }),
        (Column::Mid, FieldValueView::Int(v)) => Ok(ItemView { mid: v, ..r }),
        (Column::Mtime, FieldValueView::Time(v)) => Ok(ItemView { mtime: v, ..r }),
        _ => Err(Error::Mapping { column: f.column }),
    }
}

/// Writing the fields into a row, first to last; the first mapping error
/// stops it.
pub open spec fn apply_spec(r: ItemView, fs: Seq<FieldView>) -> Result<ItemView, Error>
    decreases fs.len(),
{
    if fs.len() == 0 {
        Ok(r)
    } else {
        match set_spec(r, fs[0]) {
            Ok(r1) => apply_spec(r1, fs.drop_first()),
            Err(e) => Err(e),
        }
    }
}

/// The audit fields stamped on a write: creator and creation time on an
/// insert, then modifier and modification time on every write.
pub open spec fn audit_fields(uid: i64, now: Timestamp, is_create: bool) -> Seq<FieldView> {
    let m = seq![
        FieldView { column: Column::Mid, value: FieldValueView::Int(uid) },
        FieldView { column: Column::Mtime, value: FieldValueView::Time(now) },
    ];
    if is_create {
        seq![
            FieldView { column: Column::Cid, value: FieldValueView::Int(uid) },
            FieldView { column: Column::Ctime, value: FieldValueView::Time(now) },
        ] + m
    } else {
        m
    }
}

impl ItemForCreateInner {
    pub open spec fn fields_spec(&self) -> Seq<FieldView> {
        seq![
            FieldView { column: Column::Name, value: FieldValueView::Text(self.name@) },
            FieldView { column: Column::OwnerId, value: FieldValueView::Int(self.owner_id) },
        ]
    }

    /// The insert fields, in column order.
    pub fn fields(self) -> (r: Vec<Field>)
        ensures
            fields_view(r@) == self.fields_spec(),
    {
        let mut r: Vec<Field> = Vec::new();
        r.push(Field { column: Column::Name, value: FieldValue::Text(self.name) });
        r.push(Field { column: Column::OwnerId, value: FieldValue::Int(self.owner_id) });
        assert(fields_view(r@) =~= self.fields_spec());
        r
    }
}

impl ItemForUpdate {
    /// The fields present, in column order.
    pub open spec fn fields_spec(&self) -> Seq<FieldView> {
        let n: Seq<FieldView> = match self.name {
            Some(s) => seq![FieldView { column: Column::Name, value: FieldValueView::Text(s@) }],
            None => seq![],
        };
        let o: Seq<FieldView> = match self.owner_id {
            Some(v) => seq![FieldView { column: Column::OwnerId, value: FieldValueView::Int(v) }],
            None => seq![],
        };
        n + o
    }

    pub open spec fn is_empty_spec(&self) -> bool {
        self.name is None && self.owner_id is None
    }

    /// The update fields: only those present.
    pub fn fields(self) -> (r: Vec<Field>)
        ensures
            fields_view(r@) == self.fields_spec(),
            r@.len() == 0 <==> self.is_empty_spec(),
    {
        let ghost spec_fields = self.fields_spec();
        let mut r: Vec<Field> = Vec::new();
        match self.name {
            Some(s) => r.push(Field { column: Column::Name, value: FieldValue::Text(s) }),
            None => {},
        }
        match self.owner_id {
            Some(v) => r.push(Field { column: Column::OwnerId, value: FieldValue::Int(v) }),
            None => {},
        }
        assert(fields_view(r@) =~= spec_fields);
        r
    }
}

/// Appends the audit fields of a write by `uid` at `now`.
pub fn stamp_audit(fields: &mut Vec<Field>, uid: i64, now: Timestamp, is_create: bool)
    ensures
        fields_view(final(fields)@) == fields_view(old(fields)@) + audit_fields(uid, now, is_create),
{
    if is_create {
        fields.push(Field { column: Column::Cid, value: FieldValue::Int(uid) });
        fields.push(Field { column: Column::Ctime, value: FieldValue::Time(now) });
    }
    fields.push(Field { column: Column::Mid, value: FieldValue::Int(uid) });
    fields.push(Field { column: Column::Mtime, value: FieldValue::Time(now) });
    assert(fields_view(final(fields)@) =~= fields_view(old(fields)@) + audit_fields(uid, now, is_create));
}

/// Writes one field into `item`.
pub fn set_field(item: &mut Item, f: Field) -> (r: Result<(), Error>)
    ensures
        match set_spec(old(item)@, f@) {
            Ok(v) => r is Ok && final(item)@ == v,
            Err(e) => r == Err::<(), Error>(e) && final(item)@ == old(item)@,
        },
{
    match (f.column, f.value) {
        (Column::Id, FieldValue::Int(v)) => item.id = v,
        (Column::OwnerId, FieldValue::Int(v)) => item.owner_id = v,
        (Column::Name, FieldValue::Text(v)) => item.name = v,
        (Column::Origin, FieldValue::Text(v)) => item.origin = v,
        (Column::Grapes, FieldValue::Text(v)) => item.grapes = v,
        (Column::GoodWith, FieldValue::Text(v)) => item.good_with = v,
        (Column::Acid, FieldValue::Small(v)) => item.acid = v,
        (Column::Alcohol, FieldValue::Small(v)) => item.alcohol = v,
        (Column::Body, FieldValue::Small(v)) => item.body = v,
        (Column::Tannin, FieldValue::Small(v)) => item.tannin = v,
        (Column::Cid, FieldValue::Int(v)) => item.cid = v,
        (Column::Ctime, FieldValue::Time(v)) => item.ctime = v,
        (Column::Mid, FieldValue::Int(v)) => item.mid = v,
        (Column::Mtime, FieldValue::Time(v)) => item.mtime = v,
        (c, _) => {
            return Err(Error::Mapping { column: c });
        },
    }
    Ok(())
}

/// Writes the fields into `item`, first to last.
pub fn apply_fields(item: &mut Item, fields: Vec<Field>) -> (r: Result<(), Error>)
    ensures
        match apply_spec(old(item)@, fields_view(fields@)) {
            Ok(v) => r is Ok && final(item)@ == v,
            Err(e) => r == Err::<(), Error>(e),
        },
{
    let ghost target = apply_spec(item@, fields_view(fields@));
    let mut rest = fields;
    while rest.len() > 0
        invariant
            apply_spec(item@, fields_view(rest@)) == target,
            target == apply_spec(old(item)@, fields_view(fields@)),
        decreases rest@.len(),
    {
        let ghost before = rest@;
        let f = rest.remove(0);
        proof {
            assert(fields_view(rest@) =~= fields_view(before).drop_first());
            assert(fields_view(before)[0] == f@);
        }
        let ghost cur = item@;
        match set_field(item, f) {
            Ok(()) => {},
            Err(e) => {
                assert(apply_spec(cur, fields_view(before)) == Err::<ItemView, Error>(e));
                return Err(e);
            },
        }
    }
    Ok(())
}

/// Every column, in table order.
pub open spec fn all_columns() -> Seq<Column> {
    seq![
        Column::Id,
        Column::OwnerId,
        Column::Name,
        Column::Origin,
        Column::Grapes,
        Column::GoodWith,
        Column::Acid,
        Column::Alcohol,
        Column::Body,
        Column::Tannin,
        Column::Cid,
        Column::Ctime,
        Column::Mid,
        Column::Mtime,
    ]
}

pub open spec fn has_column(fs: Seq<FieldView>, c: Column) -> bool {
    exists|i: int| 0 <= i < fs.len() && (#[trigger] fs[i]).column == c
}

/// The first of `cols` that no field of `fs` gives.
pub open spec fn first_missing(fs: Seq<FieldView>, cols: Seq<Column>) -> Option<Column>
    decreases cols.len(),
{
    if cols.len() == 0 {
        None
    } else if !has_column(fs, cols[0]) {
        Some(cols[0])
    } else {
        first_missing(fs, cols.drop_first())
    }
}

/// The record a stored row's fields give: every column must be there, each
/// with a value of its kind.
pub open spec fn row_spec(fs: Seq<FieldView>) -> Result<ItemView, Error> {
    match first_missing(fs, all_columns()) {
        Some(c) => Err(Error::Mapping { column: c }),
        None => apply_spec(blank_item(0), fs),
    }
}

/// Every column of a record with its value, in table order.
pub open spec fn record_fields(v: ItemView) -> Seq<FieldView> {
    seq![
        FieldView { column: Column::Id, value: FieldValueView::Int(v.id) },
        FieldView { column: Column::OwnerId, value: FieldValueView::Int(v.owner_id) },
        FieldView { column: Column::Name, value: FieldValueView::Text(v.name) },
        FieldView { column: Column::Origin, value: FieldValueView::Text(v.origin) },
        FieldView { column: Column::Grapes, value: FieldValueView::Text(v.grapes) },
        FieldView { column: Column::GoodWith, value: FieldValueView::Text(v.good_with) },
        FieldView { column: Column::Acid, value: FieldValueView::Small(v.acid) },
        FieldView { column: Column::Alcohol, value: FieldValueView::Small(v.alcohol) },
        FieldView { column: Column::Body, value: FieldValueView::Small(v.body) },
        FieldView { column: Column::Tannin, value: FieldValueView::Small(v.tannin) },
        FieldView { column: Column::Cid, value: FieldValueView::Int(v.cid) },
        FieldView { column: Column::Ctime, value: FieldValueView::Time(v.ctime) },
        FieldView { column: Column::Mid, value: FieldValueView::Int(v.mid) },
        FieldView { column: Column::Mtime, value: FieldValueView::Time(v.mtime) },
    ]
}

/// `r` holds the values of `v` in the first `i` columns.
spec fn agrees_upto(r: ItemView, v: ItemView, i: int) -> bool {
    &&& i >= 1 ==> r.id == v.id
    &&& i >= 2 ==> r.owner_id == v.owner_id
    &&& i >= 3 ==> r.name == v.name
    &&& i >= 4 ==> r.origin == v.origin
    &&& i >= 5 ==> r.grapes == v.grapes
    &&& i >= 6 ==> r.good_with == v.good_with
    &&& i >= 7 ==> r.acid == v.acid
    &&& i >= 8 ==> r.alcohol == v.alcohol
    &&& i >= 9 ==> r.body == v.body
    &&& i >= 10 ==> r.tannin == v.tannin
    &&& i >= 11 ==> r.cid == v.cid
    &&& i >= 12 ==> r.ctime == v.ctime
    &&& i >= 13 ==> r.mid == v.mid
    &&& i >= 14 ==> r.mtime == v.mtime
}

proof fn lemma_apply_record_fields(r: ItemView, v: ItemView, i: int)
    requires
        0 <= i <= 14,
        agrees_upto(r, v, i),
    ensures
        apply_spec(r, record_fields(v).subrange(i, 14)) == Ok::<ItemView, Error>(v),
    decreases 14 - i,
{
    let fs = record_fields(v);
    let s = fs.subrange(i, 14);
    if i == 14 {
        assert(s.len() == 0);
        assert(r == v);
    } else {
        assert(s[0] == fs[i]);
        assert(s.drop_first() =~= fs.subrange(i + 1, 14));
        let r1 = set_spec(r, fs[i]).unwrap();
        assert(agrees_upto(r1, v, i + 1));
        lemma_apply_record_fields(r1, v, i + 1);
    }
}

proof fn lemma_none_missing(fs: Seq<FieldView>, cols: Seq<Column>)
    requires
        forall|j: int| 0 <= j < cols.len() ==> has_column(fs, #[trigger] cols[j]),
    ensures
        first_missing(fs, cols) is None,
    decreases cols.len(),
{
    if cols.len() > 0 {
        assert(has_column(fs, cols[0]));
        assert forall|j: int| 0 <= j < cols.drop_first().len() implies has_column(
            fs,
            #[trigger] cols.drop_first()[j],
        ) by {
            assert(cols.drop_first()[j] == cols[j + 1]);
        }
        lemma_none_missing(fs, cols.drop_first());
    }
}

/// Rebuilding a record from its own fields gives the record back.
pub proof fn law_record_fields_round_trip(v: ItemView)
    ensures
        row_spec(record_fields(v)) == Ok::<ItemView, Error>(v),
{
    let fs = record_fields(v);
    let cols = all_columns();
    assert forall|k: int| 0 <= k < cols.len() implies has_column(fs, #[trigger] cols[k]) by {
        assert(fs[k].column == cols[k]);
    }
    lemma_none_missing(fs, cols);
    lemma_apply_record_fields(blank_item(0), v, 0);
    assert(fs.subrange(0, 14) =~= fs);
}

fn fields_have(fields: &Vec<Field>, c: Column) -> (r: bool)
    ensures
        r == has_column(fields_view(fields@), c),
{
    let ghost fv = fields_view(fields@);
    let mut i: usize = 0;
    while i < fields.len()
        invariant
            i <= fields@.len(),
            fv == fields_view(fields@),
            forall|k: int| 0 <= k < i ==> (#[trigger] fv[k]).column != c,
        decreases fields.len() - i,
    {
        assert(fv[i as int] == fields@[i as int]@);
        if fields[i].column == c {
            return true;
        }
        i = i + 1;
    }
    false
}

impl Item {
    /// Every column of the record with its value, in table order.
    pub fn to_fields(&self) -> (r: Vec<Field>)
        ensures
            fields_view(r@) == record_fields(self@),
    {
        let r = vec![
            Field { column: Column::Id, value: FieldValue::Int(self.id) },
            Field { column: Column::OwnerId, value: FieldValue::Int(self.owner_id) },
            Field { column: Column::Name, value: FieldValue::Text(self.name.clone()) },
            Field { column: Column::Origin, value: FieldValue::Text(self.origin.clone()) },
            Field { column: Column::Grapes, value: FieldValue::Text(self.grapes.clone()) },
            Field { column: Column::GoodWith, value: FieldValue::Text(self.good_with.clone()) },
            Field { column: Column::Acid, value: FieldValue::Small(self.acid) },
            Field { column: Column::Alcohol, value: FieldValue::Small(self.alcohol) },
            Field { column: Column::Body, value: FieldValue::Small(self.body) },
            Field { column: Column::Tannin, value: FieldValue::Small(self.tannin) },
            Field { column: Column::Cid, value: FieldValue::Int(self.cid) },
            Field { column: Column::Ctime, value: FieldValue::Time(self.ctime) },
            Field { column: Column::Mid, value: FieldValue::Int(self.mid) },
            Field { column: Column::Mtime, value: FieldValue::Time(self.mtime) },
        ];
        assert(fields_view(r@) =~= record_fields(self@));
        r
    }

    /// Rebuilds a record from the column / value pairs of a stored row.
    pub fn from_fields(fields: Vec<Field>) -> (r: Result<Item, Error>)
        ensures
            match row_spec(fields_view(fields@)) {
                Ok(v) => r is Ok && r.unwrap()@ == v,
                Err(e) => r == Err::<Item, Error>(e),
            },
    {
        let cols: Vec<Column> = vec![
            Column::Id,
            Column::OwnerId,
            Column::Name,
            Column::Origin,
            Column::Grapes,
            Column::GoodWith,
            Column::Acid,
            Column::Alcohol,
            Column::Body,
            Column::Tannin,
            Column::Cid,
            Column::Ctime,
            Column::Mid,
            Column::Mtime,
        ];
        let ghost fv = fields_view(fields@);
        assert(cols@ =~= all_columns());
        assert(cols@.subrange(0, cols@.len() as int) =~= cols@);
        let mut k: usize = 0;
        while k < cols.len()
            invariant
                k <= cols@.len(),
                fv == fields_view(fields@),
                cols@ == all_columns(),
                first_missing(fv, all_columns()) == first_missing(
                    fv,
                    cols@.subrange(k as int, cols@.len() as int),
                ),
            decreases cols.len() - k,
        {
            let ghost rest = cols@.subrange(k as int, cols@.len() as int);
            assert(rest[0] == cols@[k as int]);
            assert(rest.drop_first() =~= cols@.subrange(k + 1, cols@.len() as int));
            if !fields_have(&fields, cols[k]) {
                return Err(Error::Mapping { column: cols[k] });
            }
            k = k + 1;
        }
        assert(cols@.subrange(k as int, cols@.len() as int).len() == 0);
        let mut row = Item::blank(0);
        match apply_fields(&mut row, fields) {
            Ok(()) => Ok(row),
            Err(e) => Err(e),
        }
    }

    /// A blank row with key `id`.
    pub fn blank(id: i64) -> (r: Item)
        ensures
            r@ == blank_item(id),
    {
        let r = Item {
            id,
            owner_id: 0,
            name: String::new(),
            origin: String::new(),
            grapes: String::new(),
            good_with: String::new(),
            acid: 0,
            alcohol: 0,
            body: 0,
            tannin: 0,
            cid: 0,
            ctime: Timestamp { year: 1970, month: 1, day: 1, hour: 0, minute: 0, second: 0, micro: 0 },
            mid: 0,
            mtime: Timestamp { year: 1970, month: 1, day: 1, hour: 0, minute: 0, second: 0, micro: 0 },
        };
        assert(r@ =~= blank_item(id));
        r
    }

    /// A copy of the row.
    pub fn duplicate(&self) -> (r: Item)
        ensures
            r@ == self@,
    {
        Item {
            id: self.id,
            owner_id: self.owner_id,
            name: self.name.clone(),
            origin: self.origin.clone(),
            grapes: self.grapes.clone(),
            good_with: self.good_with.clone(),
            acid: self.acid,
            alcohol: self.alcohol,
            body: self.body,
            tannin: self.tannin,
            cid: self.cid,
            ctime: self.ctime,
            mid: self.mid,
            mtime: self.mtime,
        }
    }
}

/// Constraints on the filterable columns; absent ones impose none.
pub struct ItemFilter {
    pub id: Option<OpValsInt64>,
    pub name: Option<OpValsString>,
    pub cid: Option<OpValsInt64>,
    pub ctime: Option<OpValsValue>,
    pub mid: Option<OpValsInt64>,
    pub mtime: Option<OpValsValue>,
}

impl Default for ItemFilter {
    fn default() -> (r: ItemFilter)
        ensures
            r.id is None && r.name is None && r.cid is None,
            r.ctime is None && r.mid is None && r.mtime is None,
    {
        ItemFilter { id: None, name: None, cid: None, ctime: None, mid: None, mtime: None }
    }
}

impl ItemFilter {
    /// The error of an operator that a column's type does not support, if any.
    pub open spec fn error_spec(&self) -> Option<Error> {
        if self.ctime is Some && !self.ctime.unwrap().applies_to_time() {
            Some(Error::InvalidFilter { column: Column::Ctime })
        } else if self.mtime is Some && !self.mtime.unwrap().applies_to_time() {
            Some(Error::InvalidFilter { column: Column::Mtime })
        } else {
            None
        }
    }

    /// Every constraint present holds of the row.
    pub open spec fn matches(&self, r: ItemView) -> bool {
        (self.id is Some ==> self.id.unwrap().holds(r.id))
        && (self.name is Some ==> self.name.unwrap().holds(r.name))
        && (self.cid is Some ==> self.cid.unwrap().holds(r.cid))
        && (self.ctime is Some ==> self.ctime.unwrap().holds_on_time(r.ctime))
        && (self.mid is Some ==> self.mid.unwrap().holds(r.mid))
        && (self.mtime is Some ==> self.mtime.unwrap().holds_on_time(r.mtime))
    }

    /// Fails where an operator is not supported by its column's type.
    pub fn check(&self) -> (r: Result<(), Error>)
        ensures
            match self.error_spec() {
                Some(e) => r == Err::<(), Error>(e),
                None => r is Ok,
            },
    {
        if let Some(o) = &self.ctime {
            if !o.check_time() {
                return Err(Error::InvalidFilter { column: Column::Ctime });
            }
        }
        if let Some(o) = &self.mtime {
            if !o.check_time() {
                return Err(Error::InvalidFilter { column: Column::Mtime });
            }
        }
        Ok(())
    }

    /// Whether the row meets every constraint.
    pub fn test(&self, item: &Item) -> (r: bool)
        requires
            self.error_spec() is None,
        ensures
            r == self.matches(item@),
    {
        if let Some(o) = &self.id {
            if !o.test(item.id) {
                return false;
            }
        }
        if let Some(o) = &self.name {
            if !o.test(&item.name) {
                return false;
            }
        }
        if let Some(o) = &self.cid {
            if !o.test(item.cid) {
                return false;
            }
        }
        if let Some(o) = &self.ctime {
            if !o.test_time(&item.ctime) {
                return false;
            }
        }
        if let Some(o) = &self.mid {
            if !o.test(item.mid) {
                return false;
            }
        }
        if let Some(o) = &self.mtime {
            if !o.test_time(&item.mtime) {
                return false;
            }
        }
        true
    }
}

/// The first error among the filter groups, in order.
pub open spec fn groups_error(fs: Seq<ItemFilter>) -> Option<Error>
    decreases fs.len(),
{
    if fs.len() == 0 {
        None
    } else if fs[0].error_spec() is Some {
        fs[0].error_spec()
    } else {
        groups_error(fs.drop_first())
    }
}

/// Filter groups are ORed; no group at all restricts nothing.
pub open spec fn groups_match(fs: Seq<ItemFilter>, r: ItemView) -> bool {
    fs.len() == 0 || exists|i: int| 0 <= i < fs.len() && (#[trigger] fs[i]).matches(r)
}

} // verus!
