use lib_core::bmc::ItemBmc;
use lib_core::ctx::Ctx;
use lib_core::error::Error;
use lib_core::filter::{ListOptions, OpValInt64, OpValString, OpValValue, OpValsInt64, OpValsString, OpValsValue, OrderBy};
use lib_core::item::{Column, ItemFilter, ItemForCreate, ItemForUpdate, ITEM_TABLE};
use lib_core::model::ModelManager;
use lib_core::time::Timestamp;

fn at(minute: u8) -> Timestamp {
    Timestamp { year: 2024, month: 3, day: 5, hour: 10, minute, second: 0, micro: 0 }
}

fn create(ctx: &Ctx, mm: &mut ModelManager, name: &str, minute: u8) -> i64 {
    ItemBmc::create(ctx, mm, ItemForCreate { name: name.to_string() }, at(minute)).unwrap()
}

#[test]
fn create_then_get_stamps_owner_and_times() {
    let ctx = Ctx::new(7);
    let mut mm = ModelManager::new(false);
    let id = create(&ctx, &mut mm, "rioja", 1);
    assert_eq!(id, 1);
    let item = ItemBmc::get(&ctx, &mm, id).unwrap();
    assert_eq!(item.id, 1);
    assert_eq!(item.name, "rioja");
    assert_eq!(item.owner_id, 7);
    assert_eq!(item.cid, 7);
    assert_eq!(item.mid, 7);
    assert_eq!(item.ctime, at(1));
    assert_eq!(item.mtime, item.ctime);
    assert_eq!(item.origin, "");
    assert_eq!(item.acid, 0);
}

#[test]
fn keys_are_assigned_in_sequence() {
    let ctx = Ctx::root_ctx();
    let mut mm = ModelManager::new(false);
    assert_eq!(create(&ctx, &mut mm, "a", 1), 1);
    assert_eq!(create(&ctx, &mut mm, "b", 2), 2);
    assert_eq!(create(&ctx, &mut mm, "c", 3), 3);
}

#[test]
fn update_changes_present_fields_only() {
    let creator = Ctx::new(7);
    let editor = Ctx::new(9);
    let mut mm = ModelManager::new(false);
    let id = create(&creator, &mut mm, "rioja", 1);
    let u = ItemForUpdate { name: Some("rioja reserva".to_string()), owner_id: None };
    ItemBmc::update(&editor, &mut mm, id, u, at(5)).unwrap();
    let item = ItemBmc::get(&editor, &mm, id).unwrap();
    assert_eq!(item.name, "rioja reserva");
    assert_eq!(item.owner_id, 7);
    assert_eq!(item.cid, 7);
    assert_eq!(item.mid, 9);
    assert_eq!(item.ctime, at(1));
    assert_eq!(item.mtime, at(5));
    assert!(item.ctime.is_before(&item.mtime));

    let u = ItemForUpdate { name: None, owner_id: Some(42) };
    ItemBmc::update(&editor, &mut mm, id, u, at(6)).unwrap();
    let item2 = ItemBmc::get(&editor, &mm, id).unwrap();
    assert_eq!(item2.name, "rioja reserva");
    assert_eq!(item2.owner_id, 42);
    assert!(item.mtime.is_before(&item2.mtime));
}

#[test]
fn missing_key_is_not_found() {
    let ctx = Ctx::new(1);
    let mut mm = ModelManager::new(false);
    create(&ctx, &mut mm, "a", 1);
    let nf = Error::EntityNotFound { entity: ITEM_TABLE, id: 100 };
    assert_eq!(ItemBmc::get(&ctx, &mm, 100).unwrap_err(), nf);
    let u = ItemForUpdate { name: Some("b".to_string()), owner_id: None };
    assert_eq!(ItemBmc::update(&ctx, &mut mm, 100, u, at(2)).unwrap_err(), nf);
    assert_eq!(ItemBmc::delete(&ctx, &mut mm, 100).unwrap_err(), nf);
    let all = ItemBmc::list(&ctx, &mm, None, None).unwrap();
    assert_eq!(all.len(), 1);
    assert_eq!(all[0].name, "a");
    assert_eq!(all[0].mtime, at(1));
}

#[test]
fn delete_removes_the_row() {
    let ctx = Ctx::new(1);
    let mut mm = ModelManager::new(false);
    let a = create(&ctx, &mut mm, "a", 1);
    let b = create(&ctx, &mut mm, "b", 2);
    ItemBmc::delete(&ctx, &mut mm, a).unwrap();
    assert_eq!(ItemBmc::get(&ctx, &mm, a).unwrap_err(), Error::EntityNotFound { entity: "item", id: a });
    assert_eq!(ItemBmc::get(&ctx, &mm, b).unwrap().name, "b");
    assert_eq!(ItemBmc::delete(&ctx, &mut mm, a).unwrap_err(), Error::EntityNotFound { entity: "item", id: a });
}

#[test]
fn empty_update_is_rejected_without_write() {
    let ctx = Ctx::new(1);
    let mut mm = ModelManager::new(false);
    let id = create(&ctx, &mut mm, "a", 1);
    let u = ItemForUpdate { name: None, owner_id: None };
    assert_eq!(ItemBmc::update(&ctx, &mut mm, id, u, at(2)).unwrap_err(), Error::Validation);
    let u = ItemForUpdate { name: None, owner_id: None };
    assert_eq!(ItemBmc::update(&ctx, &mut mm, 99, u, at(2)).unwrap_err(), Error::Validation);
    let item = ItemBmc::get(&ctx, &mm, id).unwrap();
    assert_eq!(item.mtime, at(1));
    assert_eq!(item.name, "a");
}

#[test]
fn list_without_filter_is_all_rows_by_key() {
    let ctx = Ctx::new(1);
    let mut mm = ModelManager::new(false);
    for (k, n) in ["c", "a", "b"].iter().enumerate() {
        create(&ctx, &mut mm, n, k as u8);
    }
    let all = ItemBmc::list(&ctx, &mm, None, None).unwrap();
    let ids: Vec<i64> = all.iter().map(|i| i.id).collect();
    assert_eq!(ids, vec![1, 2, 3]);
    assert_eq!(all[0].name, "c");
}

#[test]
fn list_default_limit_is_one_thousand() {
    let ctx = Ctx::new(1);
    let mut mm = ModelManager::new(false);
    for k in 0..1005u32 {
        ItemBmc::create(&ctx, &mut mm, ItemForCreate { name: format!("n{}", k) }, at(1)).unwrap();
    }
    let all = ItemBmc::list(&ctx, &mm, None, None).unwrap();
    assert_eq!(all.len(), 1000);
    assert_eq!(all[0].id, 1);
    assert_eq!(all[999].id, 1000);
    let opts = ListOptions { limit: Some(2000), offset: None, order_by: None };
    assert_eq!(ItemBmc::list(&ctx, &mm, None, Some(opts)).unwrap().len(), 1005);
}

#[test]
fn list_filter_matching_nothing_is_empty() {
    let ctx = Ctx::new(1);
    let mut mm = ModelManager::new(false);
    create(&ctx, &mut mm, "a", 1);
    let f = ItemFilter { name: Some(OpValsString(vec![OpValString::Eq("zzz".to_string())])), ..Default::default() };
    let r = ItemBmc::list(&ctx, &mm, Some(vec![f]), None).unwrap();
    assert!(r.is_empty());
}

#[test]
fn list_empty_table_is_empty() {
    let ctx = Ctx::new(1);
    let mm = ModelManager::new(false);
    assert!(ItemBmc::list(&ctx, &mm, None, None).unwrap().is_empty());
}

#[test]
fn list_filters_and_within_or_across_groups() {
    let ctx = Ctx::new(1);
    let mut mm = ModelManager::new(false);
    for (k, n) in ["merlot", "malbec", "syrah", "shiraz"].iter().enumerate() {
        create(&ctx, &mut mm, n, k as u8);
    }
    // id > 1 AND name starts with "m"
    let f = ItemFilter {
        id: Some(OpValsInt64(vec![OpValInt64::Gt(1)])),
        name: Some(OpValsString(vec![OpValString::StartsWith("m".to_string())])),
        ..Default::default()
    };
    let r = ItemBmc::list(&ctx, &mm, Some(vec![f]), None).unwrap();
    assert_eq!(r.len(), 1);
    assert_eq!(r[0].name, "malbec");
    // several operators on one field are ANDed
    let f = ItemFilter { id: Some(OpValsInt64(vec![OpValInt64::Gte(2), OpValInt64::Lt(4)])), ..Default::default() };
    let ids: Vec<i64> = ItemBmc::list(&ctx, &mm, Some(vec![f]), None).unwrap().iter().map(|i| i.id).collect();
    assert_eq!(ids, vec![2, 3]);
    // groups are ORed
    let g1 = ItemFilter { name: Some(OpValsString(vec![OpValString::EndsWith("lot".to_string())])), ..Default::default() };
    let g2 = ItemFilter { id: Some(OpValsInt64(vec![OpValInt64::In(vec![4])])), ..Default::default() };
    let ids: Vec<i64> = ItemBmc::list(&ctx, &mm, Some(vec![g1, g2]), None).unwrap().iter().map(|i| i.id).collect();
    assert_eq!(ids, vec![1, 4]);
    let f = ItemFilter { name: Some(OpValsString(vec![OpValString::Contains("ra".to_string())])), ..Default::default() };
    let ids: Vec<i64> = ItemBmc::list(&ctx, &mm, Some(vec![f]), None).unwrap().iter().map(|i| i.id).collect();
    assert_eq!(ids, vec![3, 4]);
    let f = ItemFilter {
        name: Some(OpValsString(vec![OpValString::NotContains("a".to_string()), OpValString::Not("x".to_string())])),
        ..Default::default()
    };
    let ids: Vec<i64> = ItemBmc::list(&ctx, &mm, Some(vec![f]), None).unwrap().iter().map(|i| i.id).collect();
    assert_eq!(ids, vec![1]);
    let f = ItemFilter { id: Some(OpValsInt64(vec![OpValInt64::NotIn(vec![1, 2]), OpValInt64::Not(3)])), ..Default::default() };
    let ids: Vec<i64> = ItemBmc::list(&ctx, &mm, Some(vec![f]), None).unwrap().iter().map(|i| i.id).collect();
    assert_eq!(ids, vec![4]);
    let f = ItemFilter { cid: Some(OpValsInt64(vec![OpValInt64::Eq(1)])), mid: Some(OpValsInt64(vec![OpValInt64::Lte(1)])), ..Default::default() };
    assert_eq!(ItemBmc::list(&ctx, &mm, Some(vec![f]), None).unwrap().len(), 4);
    // no groups at all restricts nothing
    assert_eq!(ItemBmc::list(&ctx, &mm, Some(vec![]), None).unwrap().len(), 4);
}

#[test]
fn list_time_filters_compare_instants() {
    let ctx = Ctx::new(1);
    let mut mm = ModelManager::new(false);
    for k in 1..5u8 {
        create(&ctx, &mut mm, &format!("w{}", k), k * 10);
    }
    let f = ItemFilter {
        ctime: Some(OpValsValue(vec![OpValValue::Gte("2024-03-05T10:20:00.000000Z".to_string())])),
        mtime: Some(OpValsValue(vec![OpValValue::Lt("2024-03-05T10:40:00.000000Z".to_string())])),
        ..Default::default()
    };
    let ids: Vec<i64> = ItemBmc::list(&ctx, &mm, Some(vec![f]), None).unwrap().iter().map(|i| i.id).collect();
    assert_eq!(ids, vec![2, 3]);
    let f = ItemFilter { ctime: Some(OpValsValue(vec![OpValValue::Eq("2024-03-05T10:10:00.000000Z".to_string())])), ..Default::default() };
    let ids: Vec<i64> = ItemBmc::list(&ctx, &mm, Some(vec![f]), None).unwrap().iter().map(|i| i.id).collect();
    assert_eq!(ids, vec![1]);
    let f = ItemFilter {
        ctime: Some(OpValsValue(vec![OpValValue::Gt("2024-03-05T10:10:00.000000Z".to_string()), OpValValue::Lte("2024-03-05T10:30:00.000000Z".to_string()), OpValValue::Not("2024-03-05T10:20:00.000000Z".to_string())])),
        ..Default::default()
    };
    let ids: Vec<i64> = ItemBmc::list(&ctx, &mm, Some(vec![f]), None).unwrap().iter().map(|i| i.id).collect();
    assert_eq!(ids, vec![3]);
}

#[test]
fn unsupported_operator_is_invalid_filter() {
    let ctx = Ctx::new(1);
    let mut mm = ModelManager::new(false);
    create(&ctx, &mut mm, "a", 1);
    let f = ItemFilter { ctime: Some(OpValsValue(vec![OpValValue::Contains("2024".to_string())])), ..Default::default() };
    assert_eq!(ItemBmc::list(&ctx, &mm, Some(vec![f]), None).unwrap_err(), Error::InvalidFilter { column: Column::Ctime });
    let f = ItemFilter { mtime: Some(OpValsValue(vec![OpValValue::StartsWith("2024".to_string())])), ..Default::default() };
    assert_eq!(ItemBmc::list(&ctx, &mm, Some(vec![f]), None).unwrap_err(), Error::InvalidFilter { column: Column::Mtime });
    let f = ItemFilter { mtime: Some(OpValsValue(vec![OpValValue::Eq("yesterday".to_string())])), ..Default::default() };
    assert_eq!(ItemBmc::list(&ctx, &mm, Some(vec![f]), None).unwrap_err(), Error::InvalidFilter { column: Column::Mtime });
}

#[test]
fn list_orders_and_pages() {
    let ctx = Ctx::new(1);
    let mut mm = ModelManager::new(false);
    for k in 0..5u8 {
        create(&ctx, &mut mm, &format!("w{}", k), k);
    }
    let ids = |o: ListOptions| -> Vec<i64> { ItemBmc::list(&ctx, &mm, None, Some(o)).unwrap().iter().map(|i| i.id).collect() };
    assert_eq!(ids(ListOptions { limit: Some(2), offset: Some(1), order_by: None }), vec![2, 3]);
    assert_eq!(ids(ListOptions { limit: Some(2), offset: Some(1), order_by: Some(OrderBy::Desc(Column::Id)) }), vec![4, 3]);
    assert_eq!(ids(ListOptions { limit: None, offset: None, order_by: Some(OrderBy::Asc(Column::Id)) }), vec![1, 2, 3, 4, 5]);
    assert_eq!(ids(ListOptions { limit: Some(10), offset: Some(4), order_by: None }), vec![5]);
    assert_eq!(ids(ListOptions { limit: Some(3), offset: Some(9), order_by: None }), Vec::<i64>::new());
    assert_eq!(ids(ListOptions { limit: Some(0), offset: None, order_by: None }), Vec::<i64>::new());
    assert_eq!(ids(ListOptions::new()), vec![1, 2, 3, 4, 5]);
}

#[test]
fn duplicate_name_is_rejected_where_unique() {
    let ctx = Ctx::new(3);
    let mut mm = ModelManager::new(true);
    let id = create(&ctx, &mut mm, "rioja", 1);
    let r = ItemBmc::create(&ctx, &mut mm, ItemForCreate { name: "rioja".to_string() }, at(2));
    assert_eq!(r.unwrap_err(), Error::Duplicate { column: Column::Name });
    let item = ItemBmc::get(&ctx, &mm, id).unwrap();
    assert_eq!(item.name, "rioja");
    assert_eq!(item.mtime, at(1));
    assert_eq!(ItemBmc::list(&ctx, &mm, None, None).unwrap().len(), 1);
    // renaming onto a taken name is a duplicate too, renaming to itself is not
    let other = create(&ctx, &mut mm, "rueda", 3);
    let u = ItemForUpdate { name: Some("rioja".to_string()), owner_id: None };
    assert_eq!(ItemBmc::update(&ctx, &mut mm, other, u, at(4)).unwrap_err(), Error::Duplicate { column: Column::Name });
    let u = ItemForUpdate { name: Some("rioja".to_string()), owner_id: None };
    assert!(ItemBmc::update(&ctx, &mut mm, id, u, at(4)).is_ok());
}

#[test]
fn duplicate_name_is_allowed_where_not_unique() {
    let ctx = Ctx::new(3);
    let mut mm = ModelManager::new(false);
    create(&ctx, &mut mm, "rioja", 1);
    assert_eq!(create(&ctx, &mut mm, "rioja", 2), 2);
}

#[test]
fn exhausted_key_sequence_is_reported() {
    let ctx = Ctx::new(1);
    let mut mm = ModelManager::with_first_id(false, i64::MAX - 1);
    assert_eq!(create(&ctx, &mut mm, "a", 1), i64::MAX - 1);
    let r = ItemBmc::create(&ctx, &mut mm, ItemForCreate { name: "b".to_string() }, at(2));
    assert_eq!(r.unwrap_err(), Error::KeySpaceExhausted);
    assert_eq!(ItemBmc::list(&ctx, &mm, None, None).unwrap().len(), 1);
}

#[test]
fn list_orders_by_column_with_key_as_tie_break() {
    let ctx = Ctx::new(1);
    let mut mm = ModelManager::new(false);
    for (k, n) in ["syrah", "merlot", "syrah", "albarino", "merlot"].iter().enumerate() {
        create(&ctx, &mut mm, n, 10 - k as u8);
    }
    let ids = |ob: OrderBy| -> Vec<i64> {
        let o = ListOptions { limit: None, offset: None, order_by: Some(ob) };
        ItemBmc::list(&ctx, &mm, None, Some(o)).unwrap().iter().map(|i| i.id).collect()
    };
    assert_eq!(ids(OrderBy::Asc(Column::Name)), vec![4, 2, 5, 1, 3]);
    assert_eq!(ids(OrderBy::Desc(Column::Name)), vec![1, 3, 2, 5, 4]);
    assert_eq!(ids(OrderBy::Asc(Column::Ctime)), vec![5, 4, 3, 2, 1]);
    assert_eq!(ids(OrderBy::Desc(Column::Ctime)), vec![1, 2, 3, 4, 5]);
    assert_eq!(ids(OrderBy::Asc(Column::Cid)), vec![1, 2, 3, 4, 5]);
    let o = ListOptions { limit: Some(2), offset: Some(1), order_by: Some(OrderBy::Asc(Column::Name)) };
    let names: Vec<String> = ItemBmc::list(&ctx, &mm, None, Some(o)).unwrap().into_iter().map(|i| i.name).collect();
    assert_eq!(names, vec!["merlot".to_string(), "merlot".to_string()]);
}

#[test]
fn text_order_is_by_bytes() {
    let ctx = Ctx::new(1);
    let mut mm = ModelManager::new(false);
    for n in ["b", "ab", "a", "B", ""] {
        create(&ctx, &mut mm, n, 1);
    }
    let o = ListOptions { limit: None, offset: None, order_by: Some(OrderBy::Asc(Column::Name)) };
    let names: Vec<String> = ItemBmc::list(&ctx, &mm, None, Some(o)).unwrap().into_iter().map(|i| i.name).collect();
    assert_eq!(names, vec!["", "B", "a", "ab", "b"]);
}
