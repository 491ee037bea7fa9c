use lib_core::item::{apply_fields, set_field, stamp_audit, Column, Field, FieldValue, Item, ItemForCreateInner, ItemForUpdate};
use lib_core::error::Error;
use lib_core::time::Timestamp;

fn ts(year: u16, month: u8, day: u8, hour: u8, minute: u8, second: u8, micro: u32) -> Timestamp {
    Timestamp { year, month, day, hour, minute, second, micro }
}

#[test]
fn format_writes_fixed_rfc3339() {
    let t = ts(2024, 3, 5, 7, 8, 9, 12);
    assert_eq!(String::from_utf8(t.format()).unwrap(), "2024-03-05T07:08:09.000012Z");
    let t = ts(999, 12, 31, 23, 59, 59, 999_999);
    assert_eq!(String::from_utf8(t.format()).unwrap(), "0999-12-31T23:59:59.999999Z");
}

#[test]
fn parse_reads_fixed_rfc3339() {
    assert_eq!(Timestamp::parse(b"2024-02-29T00:00:00.500000Z"), Some(ts(2024, 2, 29, 0, 0, 0, 500_000)));
    assert_eq!(Timestamp::parse(b"2023-02-29T00:00:00.000000Z"), None);
    assert_eq!(Timestamp::parse(b"2024-13-01T00:00:00.000000Z"), None);
    assert_eq!(Timestamp::parse(b"2024-01-01T24:00:00.000000Z"), None);
    assert_eq!(Timestamp::parse(b"2024-01-01 00:00:00.000000Z"), None);
    assert_eq!(Timestamp::parse(b"2024-01-01T00:00:00Z"), None);
    assert_eq!(Timestamp::parse(b"2024-01-0aT00:00:00.000000Z"), None);
    assert_eq!(Timestamp::parse(b""), None);
}

#[test]
fn text_round_trip_is_byte_identical() {
    for t in [ts(2024, 3, 5, 7, 8, 9, 12), ts(1970, 1, 1, 0, 0, 0, 0), ts(2000, 2, 29, 12, 30, 45, 123_456)] {
        let text = t.format();
        let back = Timestamp::parse(&text).unwrap();
        assert_eq!(back, t);
        assert_eq!(back.format(), text);
    }
}

#[test]
fn before_is_chronological() {
    let a = ts(2024, 3, 5, 7, 8, 9, 12);
    let b = ts(2024, 3, 5, 7, 8, 9, 13);
    let c = ts(2025, 1, 1, 0, 0, 0, 0);
    assert!(a.is_before(&b));
    assert!(!b.is_before(&a));
    assert!(!a.is_before(&a));
    assert!(b.is_before(&c));
    assert!(ts(2024, 2, 1, 0, 0, 0, 0).is_before(&ts(2024, 10, 1, 0, 0, 0, 0)));
    assert!(ts(2024, 3, 5, 7, 8, 9, 12).is_valid());
    assert!(!ts(2024, 4, 31, 0, 0, 0, 0).is_valid());
}

#[test]
fn projection_and_audit_stamping() {
    let now = ts(2024, 3, 5, 7, 8, 9, 12);
    let mut fields = ItemForCreateInner { name: "x".to_string(), owner_id: 4 }.fields();
    stamp_audit(&mut fields, 9, now, true);
    let cols: Vec<Column> = fields.iter().map(|f| f.column).collect();
    assert_eq!(cols, vec![Column::Name, Column::OwnerId, Column::Cid, Column::Ctime, Column::Mid, Column::Mtime]);
    let mut row = Item::blank(5);
    apply_fields(&mut row, fields).unwrap();
    assert_eq!(row.id, 5);
    assert_eq!(row.name, "x");
    assert_eq!(row.owner_id, 4);
    assert_eq!(row.cid, 9);
    assert_eq!(row.mtime, now);

    let u = ItemForUpdate { name: None, owner_id: Some(2) };
    let mut fields = u.fields();
    stamp_audit(&mut fields, 1, now, false);
    let cols: Vec<Column> = fields.iter().map(|f| f.column).collect();
    assert_eq!(cols, vec![Column::OwnerId, Column::Mid, Column::Mtime]);
    assert!(ItemForUpdate { name: None, owner_id: None }.fields().is_empty());
}

#[test]
fn wrong_value_kind_is_mapping_error() {
    let mut row = Item::blank(1);
    let r = set_field(&mut row, Field { column: Column::Acid, value: FieldValue::Text("high".to_string()) });
    assert_eq!(r, Err(Error::Mapping { column: Column::Acid }));
    assert_eq!(row.acid, 0);
    set_field(&mut row, Field { column: Column::Acid, value: FieldValue::Small(3) }).unwrap();
    assert_eq!(row.acid, 3);
    let fields = vec![
        Field { column: Column::Origin, value: FieldValue::Text("spain".to_string()) },
        Field { column: Column::Ctime, value: FieldValue::Int(5) },
        Field { column: Column::Grapes, value: FieldValue::Text("tempranillo".to_string()) },
    ];
    assert_eq!(apply_fields(&mut row, fields), Err(Error::Mapping { column: Column::Ctime }));
}

#[test]
fn record_fields_round_trip() {
    let mut row = Item::blank(12);
    row.name = "garnacha".to_string();
    row.owner_id = 3;
    row.tannin = -2;
    row.ctime = ts(2024, 1, 2, 3, 4, 5, 6);
    row.mtime = ts(2024, 1, 2, 3, 4, 5, 7);
    let back = Item::from_fields(row.to_fields()).unwrap();
    assert_eq!(back.id, 12);
    assert_eq!(back.name, "garnacha");
    assert_eq!(back.owner_id, 3);
    assert_eq!(back.tannin, -2);
    assert_eq!(back.ctime, row.ctime);
    assert_eq!(back.mtime, row.mtime);
}

#[test]
fn row_without_a_column_is_mapping_error() {
    let row = Item::blank(1);
    let mut fields = row.to_fields();
    fields.retain(|f| f.column != Column::Grapes);
    assert_eq!(Item::from_fields(fields).unwrap_err(), Error::Mapping { column: Column::Grapes });
    assert_eq!(Item::from_fields(vec![]).unwrap_err(), Error::Mapping { column: Column::Id });
}
