use rednext::row::{
    decode_row, decode_value, done_params, encode_value, expect_one, find_params, id_param,
    insert_params, like_pattern, schema_from_rows, schema_rows, SqlValue,
};
use rednext::schema::{DbError, Field, FieldDescriptor, FieldType, Timestamp, Value};
use rednext::sql::{create_items_sql, insert_sql, select_sql, Query};

fn col(name: &str, t: FieldType) -> FieldDescriptor {
    FieldDescriptor { name: name.to_string(), field_type: t }
}

fn schema() -> Vec<FieldDescriptor> {
    vec![col("txt", FieldType::Text), col("n", FieldType::Number)]
}

#[test]
fn create_statement_lists_every_column() {
    assert_eq!(
        create_items_sql(&schema()),
        "CREATE TABLE items (id INTEGER PRIMARY KEY AUTOINCREMENT, completed_at INTEGER, \"txt\" TEXT, \"n\" INTEGER)"
    );
    assert_eq!(
        create_items_sql(&vec![]),
        "CREATE TABLE items (id INTEGER PRIMARY KEY AUTOINCREMENT, completed_at INTEGER)"
    );
}

#[test]
fn insert_statement_binds_one_parameter_per_column() {
    assert_eq!(insert_sql(&schema()), "INSERT INTO items (\"txt\", \"n\") VALUES (?, ?)");
    assert_eq!(insert_sql(&vec![]), "INSERT INTO items DEFAULT VALUES");
}

#[test]
fn select_statements() {
    let s = schema();
    let head = "SELECT id, completed_at, \"txt\", \"n\" FROM items";
    assert_eq!(select_sql(&s, Query::All), format!("{head} ORDER BY id"));
    assert_eq!(
        select_sql(&s, Query::Done),
        format!("{head} WHERE completed_at IS NOT NULL ORDER BY completed_at, id")
    );
    assert_eq!(select_sql(&s, Query::Undone), format!("{head} WHERE completed_at IS NULL ORDER BY id"));
    assert_eq!(select_sql(&s, Query::ById), format!("{head} WHERE id = ?"));
    assert_eq!(
        select_sql(&s, Query::Random),
        format!("{head} WHERE completed_at IS NULL ORDER BY random() LIMIT 1")
    );
    assert_eq!(
        select_sql(&s, Query::Find),
        format!("{head} WHERE \"txt\" LIKE ? ESCAPE '\\' ORDER BY id")
    );
}

#[test]
fn find_statement_covers_exactly_the_text_columns() {
    let s = vec![col("a", FieldType::Text), col("n", FieldType::Number), col("b", FieldType::Text)];
    assert_eq!(
        select_sql(&s, Query::Find),
        "SELECT id, completed_at, \"a\", \"n\", \"b\" FROM items WHERE \"a\" LIKE ? ESCAPE '\\' OR \"b\" LIKE ? ESCAPE '\\' ORDER BY id"
    );
    let p = find_params(&s, "mi%k");
    assert_eq!(p, vec![SqlValue::Text("%mi\\%k%".to_string()), SqlValue::Text("%mi\\%k%".to_string())]);
    let none = vec![col("n", FieldType::Number)];
    assert_eq!(select_sql(&none, Query::Find), "SELECT id, completed_at, \"n\" FROM items WHERE 0 ORDER BY id");
    assert!(find_params(&none, "x").is_empty());
}

#[test]
fn like_pattern_escapes_wildcards() {
    assert_eq!(like_pattern("milk"), "%milk%");
    assert_eq!(like_pattern(""), "%%");
    assert_eq!(like_pattern("50%_a\\b"), "%50\\%\\_a\\\\b%");
}

#[test]
fn values_encode_and_decode() {
    let cases = [
        (Value::Text("hi".to_string()), SqlValue::Text("hi".to_string())),
        (Value::Number(-7), SqlValue::Integer(-7)),
        (Value::Boolean(true), SqlValue::Integer(1)),
        (Value::Boolean(false), SqlValue::Integer(0)),
        (Value::DateTime(Timestamp { secs: 86_400 }), SqlValue::Integer(86_400)),
    ];
    for (v, c) in cases {
        assert_eq!(encode_value(&v), c);
        assert_eq!(decode_value(v.field_type(), &c), Some(v));
    }
    assert_eq!(decode_value(FieldType::Boolean, &SqlValue::Integer(2)), None);
    assert_eq!(decode_value(FieldType::Number, &SqlValue::Integer(1 << 40)), None);
    assert_eq!(decode_value(FieldType::Text, &SqlValue::Integer(1)), None);
    assert_eq!(decode_value(FieldType::DateTime, &SqlValue::Null), None);
}

#[test]
fn insert_parameters_follow_schema_order() {
    let fields = vec![
        Field { name: "n".to_string(), value: Value::Number(2) },
        Field { name: "txt".to_string(), value: Value::Text("buy milk".to_string()) },
    ];
    assert_eq!(
        insert_params(&schema(), &fields),
        Ok(vec![SqlValue::Text("buy milk".to_string()), SqlValue::Integer(2)])
    );
    assert_eq!(insert_params(&schema(), &fields[..1].to_vec()), Err(DbError::FieldMismatch));
}

#[test]
fn rows_decode_into_records() {
    let row = vec![
        SqlValue::Integer(3),
        SqlValue::Integer(100),
        SqlValue::Text("buy milk".to_string()),
        SqlValue::Integer(2),
    ];
    let item = decode_row(&schema(), &row).unwrap();
    assert_eq!(item.id, 3);
    assert_eq!(item.completed_at, Some(Timestamp { secs: 100 }));
    assert_eq!(
        item.fields,
        vec![
            Field { name: "txt".to_string(), value: Value::Text("buy milk".to_string()) },
            Field { name: "n".to_string(), value: Value::Number(2) },
        ]
    );
    let pending = vec![SqlValue::Integer(1), SqlValue::Null, SqlValue::Text("a".to_string()), SqlValue::Integer(0)];
    assert_eq!(decode_row(&schema(), &pending).unwrap().completed_at, None);
    let short = vec![SqlValue::Integer(1), SqlValue::Null];
    assert_eq!(decode_row(&schema(), &short), Err(DbError::Malformed));
    let wrong = vec![SqlValue::Integer(1), SqlValue::Null, SqlValue::Integer(5), SqlValue::Integer(0)];
    assert_eq!(decode_row(&schema(), &wrong), Err(DbError::Malformed));
    let negative = vec![SqlValue::Integer(-1), SqlValue::Null, SqlValue::Text("a".to_string()), SqlValue::Integer(0)];
    assert_eq!(decode_row(&schema(), &negative), Err(DbError::Malformed));
}

#[test]
fn schema_rows_round_trip() {
    let s = vec![col("when", FieldType::DateTime), col("ok", FieldType::Boolean), col("t", FieldType::Text)];
    let rows = schema_rows(&s);
    assert_eq!(
        rows[0],
        vec![SqlValue::Integer(0), SqlValue::Text("when".to_string()), SqlValue::Text("datetime".to_string())]
    );
    assert_eq!(schema_from_rows(&rows), Ok(s));
}

#[test]
fn malformed_schema_rows_are_rejected() {
    let bad_type = vec![vec![SqlValue::Integer(0), SqlValue::Text("a".to_string()), SqlValue::Text("float".to_string())]];
    assert_eq!(schema_from_rows(&bad_type), Err(DbError::Malformed));
    let dup = vec![
        vec![SqlValue::Integer(0), SqlValue::Text("a".to_string()), SqlValue::Text("text".to_string())],
        vec![SqlValue::Integer(1), SqlValue::Text("a".to_string()), SqlValue::Text("number".to_string())],
    ];
    assert_eq!(schema_from_rows(&dup), Err(DbError::Malformed));
    assert_eq!(schema_from_rows(&vec![vec![SqlValue::Null]]), Err(DbError::Malformed));
}

#[test]
fn affected_row_count_must_be_one() {
    assert_eq!(expect_one(1), Ok(()));
    assert_eq!(expect_one(0), Err(DbError::NotExactlyOne));
    assert_eq!(expect_one(2), Err(DbError::NotExactlyOne));
}

#[test]
fn id_parameters() {
    assert_eq!(id_param(5), SqlValue::Integer(5));
    assert_eq!(id_param(u64::MAX), SqlValue::Integer(-1));
    assert_eq!(
        done_params(5, Timestamp { secs: 9 }),
        vec![SqlValue::Integer(9), SqlValue::Integer(5)]
    );
}
