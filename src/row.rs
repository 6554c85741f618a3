use vstd::prelude::*;

use crate::item::{DbItem, ItemModel};
use crate::schema::{
    arrange_fields, arranged, check_schema, conforms, parse_type_spec, schema_check_spec,
    type_name_spec, value_type, DbError, Field, FieldDescriptor, FieldType, Timestamp, Value,
};

verus! {

/// One cell of a stored row, as the storage engine holds it.
#[derive(Clone, Debug, PartialEq, Eq)]
pub enum SqlValue {
    Null,
    Integer(i64),
    Text(String),
}

/// How a value is stored: text as text, the other types as integers
/// (a boolean as 0 or 1, a timestamp as its seconds).
pub open spec fn encode_spec(v: Value) -> SqlValue {
    match v {
        Value::Text(s) => SqlValue::Text(s),
        Value::Number(n) => SqlValue::Integer(n as i64),
        Value::Boolean(b) => SqlValue::Integer(if b { 1 } else { 0 }),
        Value::DateTime(t) => SqlValue::Integer(t.secs),
    }
}

/// The value of the given type that a cell holds, if it holds one.
pub open spec fn decode_spec(t: FieldType, c: SqlValue) -> Option<Value> {
    match (t, c) {
        (FieldType::Text, SqlValue::Text(s)) => Some(Value::Text(s)),
        (FieldType::Number, SqlValue::Integer(n)) => if i32::MIN <= n <= i32::MAX {
            Some(Value::Number(n as i32))
        } else {
            None
        },
        (FieldType::Boolean, SqlValue::Integer(n)) => if n == 0 {
            Some(Value::Boolean(false))
        } else if n == 1 {
            Some(Value::Boolean(true))
        } else {
            None
        },
        (FieldType::DateTime, SqlValue::Integer(n)) => Some(Value::DateTime(Timestamp { secs: n })),
        _ => None,
    }
}

/// The cell that binds a value.
pub fn encode_value(v: &Value) -> (r: SqlValue)
    ensures
        r == encode_spec(*v),
{
    match v {
        Value::Text(s) => SqlValue::Text(s.clone()),
        Value::Number(n) => SqlValue::Integer(*n as i64),
        Value::Boolean(b) => SqlValue::Integer(if *b { 1 } else { 0 }),
        Value::DateTime(t) => SqlValue::Integer(t.secs),
    }
}

/// Reads a value of the given type from a cell.
pub fn decode_value(t: FieldType, c: &SqlValue) -> (r: Option<Value>)
    ensures
        r == decode_spec(t, *c),
{
    match (t, c) {
        (FieldType::Text, SqlValue::Text(s)) => Some(Value::Text(s.clone())),
        (FieldType::Number, SqlValue::Integer(n)) => if i32::MIN as i64 <= *n && *n <= i32::MAX as i64 {
            Some(Value::Number(*n as i32))
        } else {
            None
        },
        (FieldType::Boolean, SqlValue::Integer(n)) => if *n == 0 {
            Some(Value::Boolean(false))
        } else if *n == 1 {
            Some(Value::Boolean(true))
        } else {
            None
        },
        (FieldType::DateTime, SqlValue::Integer(n)) => Some(Value::DateTime(Timestamp { secs: *n })),
        _ => None,
    }
}

/// A stored value reads back as itself under its own type.
pub proof fn lemma_decode_encode(v: Value)
    ensures
        decode_spec(value_type(v), encode_spec(v)) == Some(v),
{
}

/// The parameters that insert a conforming set of fields: their values in
/// schema order. Fails if the fields do not cover the schema.
pub fn insert_params(schema: &Vec<FieldDescriptor>, fields: &Vec<Field>) -> (r: Result<
    Vec<SqlValue>,
    DbError,
>)
    ensures
        match r {
            Ok(p) => conforms(schema@, fields@) && p@ == arranged(schema@, fields@).map_values(
                |f: Field| encode_spec(f.value),
            ),
            Err(e) => !conforms(schema@, fields@) && e == DbError::FieldMismatch,
        },
{
    let ordered = arrange_fields(schema, fields)?;
    let mut out: Vec<SqlValue> = Vec::new();
    let mut i: usize = 0;
    while i < ordered.len()
        invariant
            i <= ordered@.len(),
            out@ == ordered@.take(i as int).map_values(|f: Field| encode_spec(f.value)),
        decreases ordered@.len() - i,
    {
        out.push(encode_value(&ordered[i].value));
        assert(out@ =~= ordered@.take(i + 1).map_values(|f: Field| encode_spec(f.value)));
        i = i + 1;
    }
    assert(ordered@.take(i as int) =~= ordered@);
    Ok(out)
}

/// The parameter that binds a record id. Stored ids lie in `1..=i64::MAX`;
/// an id beyond that range binds -1, which matches no row.
pub fn id_param(id: u64) -> (r: SqlValue)
    ensures
        r == id_param_spec(id),
{
    if id <= i64::MAX as u64 {
        SqlValue::Integer(id as i64)
    } else {
        SqlValue::Integer(-1)
    }
}

/// The parameters of marking a record done at `time`.
pub fn done_params(id: u64, time: Timestamp) -> (r: Vec<SqlValue>)
    ensures
        r@ == seq![SqlValue::Integer(time.secs), id_param_spec(id)],
{
    let mut v: Vec<SqlValue> = Vec::new();
    v.push(SqlValue::Integer(time.secs));
    v.push(id_param(id));
    assert(v@ =~= seq![SqlValue::Integer(time.secs), id_param_spec(id)]);
    v
}

/// The cell that binds a record id.
pub open spec fn id_param_spec(id: u64) -> SqlValue {
    SqlValue::Integer(if id <= i64::MAX as u64 { id as i64 } else { -1i64 })
}

/// `needle` with each of `%`, `_` and `\` preceded by `\`.
pub open spec fn escape_spec(needle: Seq<char>) -> Seq<char>
    decreases needle.len(),
{
    if needle.len() == 0 {
        Seq::empty()
    } else {
        let c = needle.last();
        let e = escape_spec(needle.drop_last());
        if c == '%' || c == '_' || c == '\\' {
            e.push('\\').push(c)
        } else {
            e.push(c)
        }
    }
}

/// The pattern that matches text holding `needle` anywhere.
pub open spec fn like_pattern_spec(needle: Seq<char>) -> Seq<char> {
    seq!['%'] + escape_spec(needle) + seq!['%']
}

/// The pattern bound to each text column in a search for `needle`.
pub fn like_pattern(needle: &str) -> (r: String)
    ensures
        r@ == like_pattern_spec(needle@),
{
    proof {
        reveal_strlit("%");
        reveal_strlit("\\");
    }
    let n = needle.unicode_len();
    let mut out = String::from_str("%");
    let mut i: usize = 0;
    while i < n
        invariant
            n == needle@.len(),
            i <= n,
            "%"@ == seq!['%'],
            "\\"@ == seq!['\\'],
            out@ == seq!['%'] + escape_spec(needle@.take(i as int)),
        decreases n - i,
    {
        let c = needle.get_char(i);
        assert(needle@.take(i + 1).drop_last() =~= needle@.take(i as int));
        if c == '%' || c == '_' || c == '\\' {
            out.append("\\");
        }
        let one = needle.substring_char(i, i + 1);
        assert(one@ =~= seq![c]);
        out.append(one);
        assert(out@ =~= seq!['%'] + escape_spec(needle@.take(i + 1)));
        i = i + 1;
    }
    assert(needle@.take(n as int) =~= needle@);
    out.append("%");
    out
}

/// One pattern parameter per text column of the schema.
pub fn find_params(schema: &Vec<FieldDescriptor>, needle: &str) -> (r: Vec<SqlValue>)
    ensures
        r@.len() == schema@.filter(|d: FieldDescriptor| d.field_type == FieldType::Text).len(),
        forall|i: int| 0 <= i < r@.len() ==> (#[trigger] r@[i] matches SqlValue::Text(p) && p@ == like_pattern_spec(needle@)),
{
    let ghost pred = |d: FieldDescriptor| d.field_type == FieldType::Text;
    let pattern = like_pattern(needle);
    let mut out: Vec<SqlValue> = Vec::new();
    let mut i: usize = 0;
    while i < schema.len()
        invariant
            i <= schema@.len(),
            pred == (|d: FieldDescriptor| d.field_type == FieldType::Text),
            pattern@ == like_pattern_spec(needle@),
            out@.len() == schema@.take(i as int).filter(pred).len(),
            forall|k: int| 0 <= k < out@.len() ==> (#[trigger] out@[k] matches SqlValue::Text(p) && p@ == like_pattern_spec(needle@)),
        decreases schema@.len() - i,
    {
        proof {
            assert(schema@.take(i + 1) =~= schema@.take(i as int).push(schema@[i as int]));
            schema@.take(i as int).lemma_filter_push(schema@[i as int], pred);
        }
        if schema[i].field_type == FieldType::Text {
            out.push(SqlValue::Text(pattern.clone()));
        }
        i = i + 1;
    }
    assert(schema@.take(i as int) =~= schema@);
    out
}

/// The record that a stored row holds, read under the schema: the id, the
/// completion time, then one cell per column in schema order.
pub open spec fn decode_row_spec(schema: Seq<FieldDescriptor>, row: Seq<SqlValue>) -> Option<ItemModel> {
    if row.len() == schema.len() + 2 && (row[0] matches SqlValue::Integer(id) && id >= 0)
        && (row[1] is Null || row[1] is Integer)
        && forall|i: int| 0 <= i < schema.len() ==> (#[trigger] decode_spec(schema[i].field_type, row[i + 2])) is Some {
        Some(ItemModel {
            id: row[0]->Integer_0 as u64,
            fields: Seq::new(schema.len(), |i: int| Field {
                name: schema[i].name,
                value: decode_spec(schema[i].field_type, row[i + 2])->Some_0,
            }),
            completed_at: match row[1] {
                SqlValue::Integer(s) => Some(Timestamp { secs: s }),
                _ => None,
            },
        })
    } else {
        None
    }
}

/// Reads a record from a stored row; fails if the row does not have the
/// schema's shape and types.
pub fn decode_row(schema: &Vec<FieldDescriptor>, row: &Vec<SqlValue>) -> (r: Result<DbItem, DbError>)
    ensures
        match r {
            Ok(item) => decode_row_spec(schema@, row@) == Some(item@),
            Err(e) => decode_row_spec(schema@, row@) is None && e == DbError::Malformed,
        },
{
    let n = schema.len();
    if row.len() < 2 || row.len() - 2 != n {
        return Err(DbError::Malformed);
    }
    let id = match &row[0] {
        SqlValue::Integer(v) => if *v >= 0 {
            *v as u64
        } else {
            return Err(DbError::Malformed);
        },
        _ => {
            return Err(DbError::Malformed);
        },
    };
    let completed_at = match &row[1] {
        SqlValue::Null => None,
        SqlValue::Integer(s) => Some(Timestamp { secs: *s }),
        SqlValue::Text(_) => {
            return Err(DbError::Malformed);
        },
    };
    let mut fields: Vec<Field> = Vec::new();
    let mut i: usize = 0;
    while i < n
        invariant
            n == schema@.len(),
            row@.len() == n + 2,
            i <= n,
            fields@.len() == i,
            forall|k: int| 0 <= k < i ==> (#[trigger] decode_spec(schema@[k].field_type, row@[k + 2])) is Some,
            forall|k: int| 0 <= k < i ==> #[trigger] fields@[k] == (Field {
                name: schema@[k].name,
                value: decode_spec(schema@[k].field_type, row@[k + 2])->Some_0,
            }),
        decreases n - i,
    {
        let j: usize = row.len() - (n - i);
        match decode_value(schema[i].field_type, &row[j]) {
            None => {
                assert(decode_spec(schema@[i as int].field_type, row@[i + 2]) is None);
                return Err(DbError::Malformed);
            },
            Some(v) => {
                fields.push(Field { name: schema[i].name.clone(), value: v });
            },
        }
        i = i + 1;
    }
    let item = DbItem { id, fields, completed_at };
    assert(item@.fields =~= decode_row_spec(schema@, row@)->Some_0.fields);
    Ok(item)
}

/// `row` stores column `i` of a schema: its position, name and type name.
pub open spec fn is_schema_row(row: Seq<SqlValue>, i: int, d: FieldDescriptor) -> bool {
    &&& row.len() == 3
    &&& row[0] == SqlValue::Integer(i as i64)
    &&& row[1] == SqlValue::Text(d.name)
    &&& row[2] matches SqlValue::Text(t) && t@ == type_name_spec(d.field_type)
}

/// The rows that persist a schema, one per column in order.
pub fn schema_rows(schema: &Vec<FieldDescriptor>) -> (r: Vec<Vec<SqlValue>>)
    requires
        schema@.len() <= i64::MAX,
    ensures
        r@.len() == schema@.len(),
        forall|i: int| 0 <= i < r@.len() ==> is_schema_row(#[trigger] r@[i]@, i, schema@[i]),
{
    let mut out: Vec<Vec<SqlValue>> = Vec::new();
    let mut i: usize = 0;
    while i < schema.len()
        invariant
            schema@.len() <= i64::MAX,
            i <= schema@.len(),
            out@.len() == i,
            forall|k: int| 0 <= k < i ==> is_schema_row(#[trigger] out@[k]@, k, schema@[k]),
        decreases schema@.len() - i,
    {
        let mut row: Vec<SqlValue> = Vec::new();
        row.push(SqlValue::Integer(i as i64));
        row.push(SqlValue::Text(schema[i].name.clone()));
        row.push(SqlValue::Text(String::from_str(schema[i].field_type.name())));
        out.push(row);
        i = i + 1;
    }
    out
}

/// The column that a stored row describes, if it describes one.
pub open spec fn column_of_row(row: Seq<SqlValue>) -> Option<FieldDescriptor> {
    if row.len() == 3 && row[1] is Text && (row[2] matches SqlValue::Text(t) && parse_type_spec(t@) is Some) {
        Some(FieldDescriptor { name: row[1]->Text_0, field_type: parse_type_spec(row[2]->Text_0@)->Some_0 })
    } else {
        None
    }
}

/// The schema that stored rows describe: every row must describe a column,
/// and the columns must form a valid schema.
pub open spec fn schema_of_rows(rows: Seq<Vec<SqlValue>>) -> Option<Seq<FieldDescriptor>> {
    if forall|i: int| 0 <= i < rows.len() ==> (#[trigger] column_of_row(rows[i]@)) is Some {
        let schema = Seq::new(rows.len(), |i: int| column_of_row(rows[i]@)->Some_0);
        if schema_check_spec(schema) is Ok {
            Some(schema)
        } else {
            None
        }
    } else {
        None
    }
}

/// Reads a persisted schema back; fails if a row does not describe a
/// column or the columns do not form a valid schema.
pub fn schema_from_rows(rows: &Vec<Vec<SqlValue>>) -> (r: Result<Vec<FieldDescriptor>, DbError>)
    ensures
        match r {
            Ok(s) => schema_of_rows(rows@) == Some(s@),
            Err(e) => schema_of_rows(rows@) is None && e == DbError::Malformed,
        },
{
    let mut out: Vec<FieldDescriptor> = Vec::new();
    let mut i: usize = 0;
    while i < rows.len()
        invariant
            i <= rows@.len(),
            out@.len() == i,
            forall|k: int| 0 <= k < i ==> (#[trigger] column_of_row(rows@[k]@)) == Some(out@[k]),
        decreases rows@.len() - i,
    {
        let row = &rows[i];
        if row.len() != 3 {
            assert(column_of_row(rows@[i as int]@) is None);
            return Err(DbError::Malformed);
        }
        let name = match &row[1] {
            SqlValue::Text(n) => n.clone(),
            _ => {
                assert(column_of_row(rows@[i as int]@) is None);
                return Err(DbError::Malformed);
            },
        };
        let field_type = match &row[2] {
            SqlValue::Text(t) => match FieldType::parse(t.as_str()) {
                Some(ft) => ft,
                None => {
                    assert(column_of_row(rows@[i as int]@) is None);
                    return Err(DbError::Malformed);
                },
            },
            _ => {
                assert(column_of_row(rows@[i as int]@) is None);
                return Err(DbError::Malformed);
            },
        };
        out.push(FieldDescriptor { name, field_type });
        i = i + 1;
    }
    assert(out@ =~= Seq::new(rows@.len(), |i: int| column_of_row(rows@[i]@)->Some_0));
    match check_schema(&out) {
        Ok(()) => Ok(out),
        Err(_) => Err(DbError::Malformed),
    }
}

/// A valid schema read back from the rows that persist it is the same schema.
pub proof fn lemma_schema_rows_round_trip(schema: Seq<FieldDescriptor>, rows: Seq<Vec<SqlValue>>)
    requires
        schema_check_spec(schema) is Ok,
        rows.len() == schema.len(),
        forall|i: int| 0 <= i < rows.len() ==> is_schema_row(#[trigger] rows[i]@, i, schema[i]),
    ensures
        schema_of_rows(rows) == Some(schema),
{
    assert forall|i: int| 0 <= i < rows.len() implies (#[trigger] column_of_row(rows[i]@)) == Some(schema[i]) by {
        assert(is_schema_row(rows[i]@, i, schema[i]));
        crate::schema::lemma_type_name_round_trip(schema[i].field_type, Seq::empty());
    }
    assert(Seq::new(rows.len(), |i: int| column_of_row(rows[i]@)->Some_0) =~= schema);
}

/// An update that must touch exactly one record succeeds when the count of
/// touched rows is one.
pub fn expect_one(count: usize) -> (r: Result<(), DbError>)
    ensures
        r == if count == 1 { Ok::<(), DbError>(()) } else { Err(DbError::NotExactlyOne) },
{
    if count == 1 {
        Ok(())
    } else {
        Err(DbError::NotExactlyOne)
    }
}

} // verus!
