use rednext::collection::Collection;
use rednext::item::DbItem;
use rednext::schema::{DbError, Field, FieldDescriptor, FieldType, Timestamp, Value};

fn col(name: &str, t: FieldType) -> FieldDescriptor {
    FieldDescriptor { name: name.to_string(), field_type: t }
}

fn text(name: &str, v: &str) -> Field {
    Field { name: name.to_string(), value: Value::Text(v.to_string()) }
}

fn number(name: &str, v: i32) -> Field {
    Field { name: name.to_string(), value: Value::Number(v) }
}

fn todo_list() -> Collection {
    Collection::new(vec![col("txt", FieldType::Text), col("n", FieldType::Number)]).unwrap()
}

#[test]
fn insert_list_done_scenario() {
    let mut c = todo_list();
    let id = c.insert(&vec![text("txt", "buy milk"), number("n", 2)]).unwrap();
    assert_eq!(id, 1);
    let expected = DbItem {
        id: 1,
        fields: vec![text("txt", "buy milk"), number("n", 2)],
        completed_at: None,
    };
    assert_eq!(c.list_items(), vec![expected.clone()]);
    let t = Timestamp { secs: 1_700_000_000 };
    c.done(1, t).unwrap();
    let done = c.list_done();
    assert_eq!(done.len(), 1);
    assert_eq!(done[0].id, 1);
    assert_eq!(done[0].fields, expected.fields);
    assert_eq!(done[0].completed_at, Some(t));
    assert!(c.list_undone().is_empty());
}

#[test]
fn insert_puts_fields_in_schema_order() {
    let mut c = todo_list();
    c.insert(&vec![number("n", 7), text("txt", "walk")]).unwrap();
    let items = c.list_items();
    assert_eq!(items.len(), 1);
    assert_eq!(items[0].fields, vec![text("txt", "walk"), number("n", 7)]);
    assert_eq!(items[0].completed_at, None);
}

#[test]
fn insert_rejects_fields_that_do_not_cover_the_schema() {
    let mut c = todo_list();
    assert_eq!(c.insert(&vec![text("txt", "x")]), Err(DbError::FieldMismatch));
    assert_eq!(c.insert(&vec![text("txt", "x"), text("n", "2")]), Err(DbError::FieldMismatch));
    assert_eq!(c.insert(&vec![text("txt", "x"), number("m", 2)]), Err(DbError::FieldMismatch));
    assert_eq!(
        c.insert(&vec![text("txt", "x"), number("n", 2), number("n", 3)]),
        Err(DbError::FieldMismatch)
    );
    assert!(c.list_items().is_empty());
}

#[test]
fn ids_strictly_increase_and_are_not_reused() {
    let mut c = todo_list();
    let a = c.insert(&vec![text("txt", "a"), number("n", 1)]).unwrap();
    let b = c.insert(&vec![text("txt", "b"), number("n", 2)]).unwrap();
    c.delete(b);
    let d = c.insert(&vec![text("txt", "c"), number("n", 3)]).unwrap();
    assert_eq!((a, b, d), (1, 2, 3));
    let ids: Vec<u64> = c.list_items().iter().map(|i| i.id).collect();
    assert_eq!(ids, vec![1, 3]);
}

#[test]
fn done_then_undone_restores_pending() {
    let mut c = todo_list();
    c.insert(&vec![text("txt", "a"), number("n", 1)]).unwrap();
    let before = c.list_items();
    c.done(1, Timestamp { secs: 5 }).unwrap();
    assert_eq!(c.get(1).unwrap().completed_at, Some(Timestamp { secs: 5 }));
    c.undone(1).unwrap();
    assert_eq!(c.list_items(), before);
}

#[test]
fn done_and_undone_fail_on_missing_id() {
    let mut c = todo_list();
    c.insert(&vec![text("txt", "a"), number("n", 1)]).unwrap();
    assert_eq!(c.done(9, Timestamp { secs: 1 }), Err(DbError::NotExactlyOne));
    assert_eq!(c.undone(9), Err(DbError::NotExactlyOne));
    assert_eq!(c.list_items()[0].completed_at, None);
}

#[test]
fn delete_of_missing_id_changes_nothing() {
    let mut c = todo_list();
    c.insert(&vec![text("txt", "a"), number("n", 1)]).unwrap();
    let before = c.list_items();
    c.delete(42);
    assert_eq!(c.list_items(), before);
    c.delete(1);
    assert!(c.list_items().is_empty());
    assert_eq!(c.get(1), None);
}

#[test]
fn done_and_undone_listings_partition_the_records() {
    let mut c = todo_list();
    for k in 0..5 {
        c.insert(&vec![text("txt", "x"), number("n", k)]).unwrap();
    }
    c.done(2, Timestamp { secs: 30 }).unwrap();
    c.done(4, Timestamp { secs: 10 }).unwrap();
    c.done(5, Timestamp { secs: 10 }).unwrap();
    let done: Vec<u64> = c.list_done().iter().map(|i| i.id).collect();
    let undone: Vec<u64> = c.list_undone().iter().map(|i| i.id).collect();
    assert_eq!(done, vec![4, 5, 2]);
    assert_eq!(undone, vec![1, 3]);
    let mut all: Vec<u64> = done.iter().chain(undone.iter()).copied().collect();
    all.sort();
    let ids: Vec<u64> = c.list_items().iter().map(|i| i.id).collect();
    assert_eq!(all, ids);
}

#[test]
fn random_pick_is_pending_and_none_when_all_done() {
    let mut c = todo_list();
    for k in 0..3 {
        c.insert(&vec![text("txt", "x"), number("n", k)]).unwrap();
    }
    c.done(2, Timestamp { secs: 1 }).unwrap();
    assert_eq!(c.get_random(0).unwrap().id, 1);
    assert_eq!(c.get_random(1).unwrap().id, 3);
    assert_eq!(c.get_random(4).unwrap().id, 1);
    for pick in 0..10 {
        assert_eq!(c.get_random(pick).unwrap().completed_at, None);
    }
    c.done(1, Timestamp { secs: 2 }).unwrap();
    c.done(3, Timestamp { secs: 3 }).unwrap();
    assert_eq!(c.get_random(0), None);
    assert!(c.list_undone().is_empty());
}

#[test]
fn find_matches_text_fields_only() {
    let mut c = todo_list();
    c.insert(&vec![text("txt", "buy milk"), number("n", 1)]).unwrap();
    c.insert(&vec![text("txt", "walk dog"), number("n", 11)]).unwrap();
    c.insert(&vec![text("txt", "milkshake"), number("n", 2)]).unwrap();
    let ids: Vec<u64> = c.find("milk").iter().map(|i| i.id).collect();
    assert_eq!(ids, vec![1, 3]);
    assert!(c.find("1").is_empty());
    assert!(c.find("Milk").is_empty());
    assert_eq!(c.find("").len(), 3);
}

#[test]
fn find_without_text_columns_is_empty() {
    let mut c = Collection::new(vec![col("n", FieldType::Number), col("ok", FieldType::Boolean)]).unwrap();
    c.insert(&vec![number("n", 1), Field { name: "ok".to_string(), value: Value::Boolean(true) }])
        .unwrap();
    assert!(c.find("").is_empty());
    assert!(c.find("1").is_empty());
}

#[test]
fn get_returns_the_record_or_none() {
    let mut c = todo_list();
    c.insert(&vec![text("txt", "a"), number("n", 1)]).unwrap();
    c.insert(&vec![text("txt", "b"), number("n", 2)]).unwrap();
    assert_eq!(c.get(2).unwrap().fields[0], text("txt", "b"));
    assert_eq!(c.get(3), None);
    assert_eq!(c.get(0), None);
}

#[test]
fn schema_errors_are_reported() {
    assert_eq!(
        Collection::new(vec![col("a", FieldType::Text), col("a", FieldType::Number)]).err(),
        Some(DbError::DuplicateColumn)
    );
    for bad in ["", "1a", "a b", "id", "completed_at", "x\"y"] {
        assert_eq!(
            Collection::new(vec![col(bad, FieldType::Text)]).err(),
            Some(DbError::InvalidColumnName)
        );
    }
    let c = Collection::new(vec![col("_x9", FieldType::DateTime)]).unwrap();
    assert_eq!(c.schema(), &vec![col("_x9", FieldType::DateTime)]);
}
