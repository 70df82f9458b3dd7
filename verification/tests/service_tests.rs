use stable_records::record::{Error, Record, RecordInput};
use stable_records::service::StorageContext;

fn input(category: &str, price: u64) -> RecordInput {
    RecordInput { category: category.to_string(), price }
}

#[test]
fn create_then_fetch_returns_same_record() {
    let mut ctx = StorageContext::init().unwrap();
    let rec = ctx.create(input("food", 10), 111).unwrap();
    assert_eq!(rec.category, "food");
    assert_eq!(rec.price, 10);
    assert_eq!(rec.created_at, 111);
    assert_eq!(rec.updated_at, None);
    let fetched = ctx.fetch(rec.id).unwrap();
    assert_eq!(fetched, rec);
}

#[test]
fn created_identifiers_are_unique() {
    let mut ctx = StorageContext::init().unwrap();
    let a = ctx.create(input("a", 1), 1).unwrap();
    let b = ctx.create(input("b", 2), 2).unwrap();
    let c = ctx.create(input("c", 3), 3).unwrap();
    assert_ne!(a.id, b.id);
    assert_ne!(a.id, c.id);
    assert_ne!(b.id, c.id);
}

#[test]
fn identifiers_stay_unique_after_delete() {
    let mut ctx = StorageContext::init().unwrap();
    let a = ctx.create(input("a", 1), 1).unwrap();
    let b = ctx.create(input("b", 2), 2).unwrap();
    ctx.delete(a.id).unwrap();
    let c = ctx.create(input("c", 3), 3).unwrap();
    assert_ne!(c.id, a.id);
    assert_ne!(c.id, b.id);
}

#[test]
fn update_keeps_id_and_creation_time() {
    let mut ctx = StorageContext::init().unwrap();
    let rec = ctx.create(input("old", 10), 1).unwrap();
    let updated = ctx.update(rec.id, input("new", 20), 2).unwrap();
    assert_eq!(updated.id, rec.id);
    assert_eq!(updated.created_at, 1);
    assert_eq!(updated.category, "new");
    assert_eq!(updated.price, 20);
    assert_eq!(updated.updated_at, Some(2));
    let fetched = ctx.fetch(rec.id).unwrap();
    assert_eq!(fetched, updated);
}

#[test]
fn update_missing_record_reports_not_found() {
    let mut ctx = StorageContext::init().unwrap();
    let res = ctx.update(999, input("new", 20), 2);
    match res {
        Err(Error::NotFound { msg }) => {
            assert_eq!(msg, "couldn't update a record with id=999. record not found");
        },
        other => panic!("expected NotFound, got {:?}", other),
    }
}

#[test]
fn delete_then_fetch_reports_not_found() {
    let mut ctx = StorageContext::init().unwrap();
    let rec = ctx.create(input("gone", 5), 1).unwrap();
    let removed = ctx.delete(rec.id).unwrap();
    assert_eq!(removed, rec);
    match ctx.fetch(rec.id) {
        Err(Error::NotFound { msg }) => {
            assert!(msg.contains(&rec.id.to_string()));
        },
        other => panic!("expected NotFound, got {:?}", other),
    }
}

#[test]
fn delete_missing_record_reports_not_found() {
    let mut ctx = StorageContext::init().unwrap();
    match ctx.delete(4) {
        Err(Error::NotFound { msg }) => {
            assert_eq!(msg, "couldn't delete a record with id=4. record not found.");
        },
        other => panic!("expected NotFound, got {:?}", other),
    }
}

#[test]
fn fetch_never_created_id_names_it() {
    let ctx = StorageContext::init().unwrap();
    match ctx.fetch(12345) {
        Err(Error::NotFound { msg }) => {
            assert_eq!(msg, "a record with id=12345 not found");
            assert!(msg.contains("12345"));
        },
        other => panic!("expected NotFound, got {:?}", other),
    }
}

#[test]
fn aggregates_over_three_records() {
    let mut ctx = StorageContext::init().unwrap();
    ctx.create(input("a", 10), 1).unwrap();
    ctx.create(input("b", 20), 1).unwrap();
    ctx.create(input("c", 30), 1).unwrap();
    assert_eq!(ctx.total_value().unwrap(), 60);
    let (total, count) = ctx.average_parts().unwrap().unwrap();
    assert_eq!((total, count), (60, 3));
    assert_eq!(total as f64 / count as f64, 20.0);
}

#[test]
fn aggregates_over_empty_store() {
    let ctx = StorageContext::init().unwrap();
    assert_eq!(ctx.total_value().unwrap(), 0);
    assert_eq!(ctx.average_parts().unwrap(), None);
}

#[test]
fn total_saturates_instead_of_wrapping() {
    let mut ctx = StorageContext::init().unwrap();
    ctx.create(input("a", u64::MAX), 1).unwrap();
    ctx.create(input("b", 2), 1).unwrap();
    assert_eq!(ctx.total_value().unwrap(), u64::MAX);
}

#[test]
fn oversize_create_is_rejected_and_stores_nothing() {
    let mut ctx = StorageContext::init().unwrap();
    let res = ctx.create(input(&"x".repeat(2000), 1), 1);
    assert!(matches!(res, Err(Error::SizeExceeded)));
    assert_eq!(ctx.total_value().unwrap(), 0);
    assert_eq!(ctx.average_parts().unwrap(), None);
}

#[test]
fn oversize_update_leaves_old_record() {
    let mut ctx = StorageContext::init().unwrap();
    let rec = ctx.create(input("small", 10), 1).unwrap();
    let res = ctx.update(rec.id, input(&"x".repeat(2000), 1), 2);
    assert!(matches!(res, Err(Error::SizeExceeded)));
    assert_eq!(ctx.fetch(rec.id).unwrap(), rec);
}

#[test]
fn do_insert_and_get_message_round_trip() {
    let mut ctx = StorageContext::init().unwrap();
    let rec = Record {
        id: 42,
        category: "direct".to_string(),
        price: 7,
        created_at: 9,
        updated_at: Some(11),
    };
    ctx.do_insert(&rec).unwrap();
    assert_eq!(ctx._get_message(&42), Some(rec));
    assert_eq!(ctx._get_message(&43), None);
}

#[test]
fn do_insert_overwrites_existing_record() {
    let mut ctx = StorageContext::init().unwrap();
    let rec = ctx.create(input("first", 1), 1).unwrap();
    let replacement = Record {
        id: rec.id,
        category: "second".to_string(),
        price: 2,
        created_at: 3,
        updated_at: None,
    };
    ctx.do_insert(&replacement).unwrap();
    assert_eq!(ctx.fetch(rec.id).unwrap(), replacement);
}

#[test]
fn do_insert_rejects_oversize_record() {
    let mut ctx = StorageContext::init().unwrap();
    let rec = Record {
        id: 1,
        category: "y".repeat(1500),
        price: 1,
        created_at: 1,
        updated_at: None,
    };
    assert!(matches!(ctx.do_insert(&rec), Err(Error::SizeExceeded)));
    assert_eq!(ctx._get_message(&1), None);
}
