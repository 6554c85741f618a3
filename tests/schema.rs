use rednext::schema::{
    arrange_fields, check_schema, is_valid_column_name, str_eq, DbError, Field, FieldDescriptor,
    FieldType, Timestamp, Value,
};

#[test]
fn type_names_round_trip() {
    for t in [FieldType::Text, FieldType::Number, FieldType::Boolean, FieldType::DateTime] {
        assert_eq!(FieldType::parse(t.name()), Some(t));
    }
    assert_eq!(FieldType::Text.name(), "text");
    assert_eq!(FieldType::Number.name(), "number");
    assert_eq!(FieldType::Boolean.name(), "boolean");
    assert_eq!(FieldType::DateTime.name(), "datetime");
}

#[test]
fn unknown_type_name_does_not_parse() {
    assert_eq!(FieldType::parse("Text"), None);
    assert_eq!(FieldType::parse("texts"), None);
    assert_eq!(FieldType::parse(""), None);
}

#[test]
fn values_carry_their_type() {
    assert_eq!(Value::Text("a".to_string()).field_type(), FieldType::Text);
    assert_eq!(Value::Number(3).field_type(), FieldType::Number);
    assert_eq!(Value::Boolean(false).field_type(), FieldType::Boolean);
    assert_eq!(Value::DateTime(Timestamp { secs: 0 }).field_type(), FieldType::DateTime);
    let v = Value::Text("é".to_string());
    assert_eq!(v.copy(), v);
}

#[test]
fn column_names() {
    assert!(is_valid_column_name("title"));
    assert!(is_valid_column_name("_a1"));
    assert!(!is_valid_column_name("9a"));
    assert!(!is_valid_column_name("a-b"));
    assert!(!is_valid_column_name("id"));
    assert!(is_valid_column_name("ids"));
    assert!(str_eq("abc", "abc"));
    assert!(!str_eq("abc", "abd"));
    assert!(!str_eq("ab", "abc"));
}

#[test]
fn schema_checks() {
    let d = |n: &str| FieldDescriptor { name: n.to_string(), field_type: FieldType::Text };
    assert_eq!(check_schema(&vec![]), Ok(()));
    assert_eq!(check_schema(&vec![d("a"), d("b")]), Ok(()));
    assert_eq!(check_schema(&vec![d("a"), d("b"), d("a")]), Err(DbError::DuplicateColumn));
    assert_eq!(check_schema(&vec![d("a"), d("b c"), d("a")]), Err(DbError::InvalidColumnName));
}

#[test]
fn arrange_takes_the_first_field_of_each_name() {
    let schema = vec![
        FieldDescriptor { name: "a".to_string(), field_type: FieldType::Number },
        FieldDescriptor { name: "b".to_string(), field_type: FieldType::Boolean },
    ];
    let fb = Field { name: "b".to_string(), value: Value::Boolean(true) };
    let fa = Field { name: "a".to_string(), value: Value::Number(-4) };
    assert_eq!(arrange_fields(&schema, &vec![fb.clone(), fa.clone()]), Ok(vec![fa.clone(), fb.clone()]));
    assert_eq!(arrange_fields(&schema, &vec![fa.clone(), fa.clone()]), Err(DbError::FieldMismatch));
}
