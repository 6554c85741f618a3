use rednext::http_client::{optional_reply, required_reply, status_outcome, HttpDB, Outcome};
use rednext::schema::DbError;
use rednext::sqlite::{catalog_check, collection_names, CatalogOp, DirState, SqliteDB};
use rednext::text::{decimal, join};

#[test]
fn open_and_delete_of_missing_collection_fail() {
    assert_eq!(catalog_check(CatalogOp::Delete, false), Err(DbError::NoSuchCollection));
    assert_eq!(catalog_check(CatalogOp::Open, false), Err(DbError::NoSuchCollection));
    assert_eq!(catalog_check(CatalogOp::Open, true), Ok(()));
    assert_eq!(catalog_check(CatalogOp::Delete, true), Ok(()));
}

#[test]
fn create_of_existing_collection_fails() {
    assert_eq!(catalog_check(CatalogOp::Create, true), Err(DbError::AlreadyExists));
    assert_eq!(catalog_check(CatalogOp::Create, false), Ok(()));
}

#[test]
fn collection_files_are_named_after_collections() {
    let db = SqliteDB::new("/data/rednext");
    assert_eq!(db.path(), "/data/rednext");
    assert_eq!(db.file_path("todo"), "/data/rednext/todo.db");
}

#[test]
fn only_db_files_are_collections() {
    let entries: Vec<String> = ["todo.db", "notes.txt", ".db", "a.b.db", "db", "x.db.bak", "books.db"]
        .iter()
        .map(|s| s.to_string())
        .collect();
    assert_eq!(collection_names(&entries), vec!["todo", "a.b", "books"]);
}

#[test]
fn listing_depends_on_the_location() {
    let db = SqliteDB::new("/data");
    let entries = vec!["a.db".to_string()];
    assert_eq!(db.list_files(DirState::Missing, &entries), Ok(vec![]));
    assert_eq!(db.list_files(DirState::NotADirectory, &entries), Err(DbError::Backend));
    assert_eq!(db.list_files(DirState::Directory, &entries), Ok(vec!["a".to_string()]));
}

#[test]
fn remote_endpoints() {
    let db = HttpDB::new("http://host:8080".to_string());
    assert_eq!(db.url(), "http://host:8080");
    assert_eq!(db.list_url(), "http://host:8080/list");
    assert_eq!(db.open_url("todo"), "http://host:8080/open/todo");
    assert_eq!(db.create_url("todo"), "http://host:8080/create/todo");
    assert_eq!(db.delete_url("todo"), "http://host:8080/delete/todo");
    assert_eq!(db.items_url("todo"), "http://host:8080/todo/items");
    assert_eq!(db.done_items_url("todo"), "http://host:8080/todo/items/done");
    assert_eq!(db.undone_items_url("todo"), "http://host:8080/todo/items/undone");
    assert_eq!(db.random_url("todo"), "http://host:8080/todo/items/random");
    assert_eq!(db.search_url("todo"), "http://host:8080/todo/items/search");
    assert_eq!(db.item_url("todo", 42), "http://host:8080/todo/items/42");
    assert_eq!(db.mark_done_url("todo", 7), "http://host:8080/todo/items/7/done");
    assert_eq!(db.mark_undone_url("todo", 0), "http://host:8080/todo/items/0/undone");
}

#[test]
fn statuses_separate_absence_from_failure() {
    assert_eq!(status_outcome(200), Outcome::Success);
    assert_eq!(status_outcome(204), Outcome::Success);
    assert_eq!(status_outcome(404), Outcome::Absent);
    assert_eq!(status_outcome(500), Outcome::Failed);
    assert_eq!(status_outcome(400), Outcome::Failed);
    assert_eq!(optional_reply(200), Ok(true));
    assert_eq!(optional_reply(404), Ok(false));
    assert_eq!(optional_reply(503), Err(DbError::Backend));
    assert_eq!(required_reply(201, DbError::NoSuchCollection), Ok(()));
    assert_eq!(required_reply(404, DbError::NoSuchCollection), Err(DbError::NoSuchCollection));
    assert_eq!(required_reply(404, DbError::NotExactlyOne), Err(DbError::NotExactlyOne));
    assert_eq!(required_reply(302, DbError::NotExactlyOne), Err(DbError::Backend));
}

#[test]
fn decimal_and_join() {
    assert_eq!(decimal(0), "0");
    assert_eq!(decimal(1907), "1907");
    assert_eq!(decimal(u64::MAX), "18446744073709551615");
    let parts = vec!["a".to_string(), "b".to_string(), "c".to_string()];
    assert_eq!(join(&parts, ", "), "a, b, c");
    assert_eq!(join(&vec![], ", "), "");
}
