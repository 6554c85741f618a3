use vstd::prelude::*;

verus! {

/// The type of one column of a collection.
#[derive(Clone, Copy, Debug, PartialEq, Eq, Structural)]
pub enum FieldType {
    Text,
    Number,
    Boolean,
    DateTime,
}

/// A naive local timestamp with second precision, counted in seconds from
/// 1970-01-01 00:00:00 of the same (unspecified) clock.
#[derive(Clone, Copy, Debug, PartialEq, Eq, Structural)]
pub struct Timestamp {
    pub secs: i64,
}

/// A typed value of one field.
#[derive(Clone, Debug, PartialEq, Eq)]
pub enum Value {
    Text(String),
    Number(i32),
    Boolean(bool),
    DateTime(Timestamp),
}

/// One column of a schema: its name and its type.
#[derive(Clone, Debug, PartialEq, Eq)]
pub struct FieldDescriptor {
    pub name: String,
    pub field_type: FieldType,
}

/// A named value, as handed to an insertion and as held by a record.
#[derive(Clone, Debug, PartialEq, Eq)]
pub struct Field {
    pub name: String,
    pub value: Value,
}

/// Why an operation of the store failed.
#[derive(Clone, Copy, Debug, PartialEq, Eq, Structural)]
pub enum DbError {
    /// The schema has a column name that is not a plain identifier, or is reserved.
    InvalidColumnName,
    /// Two columns of the schema share a name.
    DuplicateColumn,
    /// The fields handed to an insertion do not match the schema.
    FieldMismatch,
    /// A persisted or transferred schema or record could not be read back.
    Malformed,
    /// An update that must touch exactly one record touched another number.
    NotExactlyOne,
    /// The collection already exists.
    AlreadyExists,
    /// The collection does not exist.
    NoSuchCollection,
    /// No fresh record id is left.
    Exhausted,
    /// The backend storage or transport failed.
    Backend,
}

/// The stable textual name of each field type.
pub open spec fn type_name_spec(t: FieldType) -> Seq<char> {
    match t {
        FieldType::Text => "text"@,
        FieldType::Number => "number"@,
        FieldType::Boolean => "boolean"@,
        FieldType::DateTime => "datetime"@,
    }
}

/// The field type that a textual name stands for, if any.
pub open spec fn parse_type_spec(s: Seq<char>) -> Option<FieldType> {
    if s == "text"@ {
        Some(FieldType::Text)
    } else if s == "number"@ {
        Some(FieldType::Number)
    } else if s == "boolean"@ {
        Some(FieldType::Boolean)
    } else if s == "datetime"@ {
        Some(FieldType::DateTime)
    } else {
        None
    }
}

/// The type that a value carries.
pub open spec fn value_type(v: Value) -> FieldType {
    match v {
        Value::Text(_) => FieldType::Text,
        Value::Number(_) => FieldType::Number,
        Value::Boolean(_) => FieldType::Boolean,
        Value::DateTime(_) => FieldType::DateTime,
    }
}

impl FieldType {
    /// The name under which this type is persisted and transferred.
    pub fn name(&self) -> (r: &'static str)
        ensures
            r@ == type_name_spec(*self),
    {
        match self {
            FieldType::Text => "text",
            FieldType::Number => "number",
            FieldType::Boolean => "boolean",
            FieldType::DateTime => "datetime",
        }
    }

    /// Reads a type back from its name; an unknown name gives `None`.
    pub fn parse(s: &str) -> (r: Option<FieldType>)
        ensures
            r == parse_type_spec(s@),
    {
        if str_eq(s, "text") {
            Some(FieldType::Text)
        } else if str_eq(s, "number") {
            Some(FieldType::Number)
        } else if str_eq(s, "boolean") {
            Some(FieldType::Boolean)
        } else if str_eq(s, "datetime") {
            Some(FieldType::DateTime)
        } else {
            None
        }
    }
}

/// Parsing the name of a type gives that type back, and a name that parses
/// is the name of the type it gives.
pub proof fn lemma_type_name_round_trip(t: FieldType, s: Seq<char>)
    ensures
        parse_type_spec(type_name_spec(t)) == Some(t),
        parse_type_spec(s) matches Some(u) ==> type_name_spec(u) == s,
{
    reveal_strlit("text");
    reveal_strlit("number");
    reveal_strlit("boolean");
    reveal_strlit("datetime");
    assert("text"@.len() == 4);
    assert("number"@.len() == 6);
    assert("boolean"@.len() == 7);
    assert("datetime"@.len() == 8);
}

/// Character-wise equality of two strings.
pub fn str_eq(a: &str, b: &str) -> (r: bool)
    ensures
        r == (a@ == b@),
{
    let n = a.unicode_len();
    if n != b.unicode_len() {
        return false;
    }
    let mut i: usize = 0;
    while i < n
        invariant
            n == a@.len(),
            n == b@.len(),
            i <= n,
            a@.take(i as int) == b@.take(i as int),
        decreases n - i,
    {
        if a.get_char(i) != b.get_char(i) {
            return false;
        }
        assert(a@.take(i + 1) =~= a@.take(i as int).push(a@[i as int]));
        assert(b@.take(i + 1) =~= b@.take(i as int).push(b@[i as int]));
        i = i + 1;
    }
    assert(a@ =~= a@.take(n as int));
    assert(b@ =~= b@.take(n as int));
    true
}

impl Value {
    /// The type that this value carries.
    pub fn field_type(&self) -> (r: FieldType)
        ensures
            r == value_type(*self),
    {
        match self {
            Value::Text(_) => FieldType::Text,
            Value::Number(_) => FieldType::Number,
            Value::Boolean(_) => FieldType::Boolean,
            Value::DateTime(_) => FieldType::DateTime,
        }
    }

    /// An equal copy of this value.
    pub fn copy(&self) -> (r: Value)
        ensures
            r == *self,
    {
        match self {
            Value::Text(s) => Value::Text(s.clone()),
            Value::Number(n) => Value::Number(*n),
            Value::Boolean(b) => Value::Boolean(*b),
            Value::DateTime(t) => Value::DateTime(*t),
        }
    }
}

impl Field {
    /// An equal copy of this field.
    pub fn copy(&self) -> (r: Field)
        ensures
            r == *self,
    {
        Field { name: self.name.clone(), value: self.value.copy() }
    }
}

/// A character allowed in a column name.
pub open spec fn ident_char(c: char) -> bool {
    ('a' <= c && c <= 'z') || ('A' <= c && c <= 'Z') || ('0' <= c && c <= '9') || c == '_'
}

/// A column name is a non-empty identifier that does not start with a digit
/// and is neither of the two columns every record has.
pub open spec fn valid_column_name(s: Seq<char>) -> bool {
    &&& s.len() > 0
    &&& !('0' <= s[0] && s[0] <= '9')
    &&& forall|i: int| 0 <= i < s.len() ==> ident_char(#[trigger] s[i])
    &&& s != "id"@
    &&& s != "completed_at"@
}

/// The column names of a schema, in order.
pub open spec fn column_names(schema: Seq<FieldDescriptor>) -> Seq<Seq<char>> {
    schema.map_values(|d: FieldDescriptor| d.name@)
}

/// No two columns of the schema share a name.
pub open spec fn distinct_names(schema: Seq<FieldDescriptor>) -> bool {
    forall|i: int, j: int|
        0 <= i < j < schema.len() ==> #[trigger] schema[i].name@ != #[trigger] schema[j].name@
}

/// What checking a schema gives: the first failing rule, or success.
pub open spec fn schema_check_spec(schema: Seq<FieldDescriptor>) -> Result<(), DbError> {
    if exists|i: int| 0 <= i < schema.len() && !valid_column_name(#[trigger] schema[i].name@) {
        Err(DbError::InvalidColumnName)
    } else if !distinct_names(schema) {
        Err(DbError::DuplicateColumn)
    } else {
        Ok(())
    }
}

/// A schema that a collection can be created with.
pub open spec fn valid_schema(schema: Seq<FieldDescriptor>) -> bool {
    schema_check_spec(schema) is Ok
}

fn is_ident_char(c: char) -> (r: bool)
    ensures
        r == ident_char(c),
{
    ('a' <= c && c <= 'z') || ('A' <= c && c <= 'Z') || ('0' <= c && c <= '9') || c == '_'
}

/// Whether `s` may name a column.
pub fn is_valid_column_name(s: &str) -> (r: bool)
    ensures
        r == valid_column_name(s@),
{
    let n = s.unicode_len();
    if n == 0 {
        return false;
    }
    let c0 = s.get_char(0);
    if '0' <= c0 && c0 <= '9' {
        return false;
    }
    let mut i: usize = 0;
    while i < n
        invariant
            n == s@.len(),
            i <= n,
            forall|k: int| 0 <= k < i ==> ident_char(#[trigger] s@[k]),
        decreases n - i,
    {
        if !is_ident_char(s.get_char(i)) {
            return false;
        }
        i = i + 1;
    }
    !str_eq(s, "id") && !str_eq(s, "completed_at")
}

/// Checks that every column name is valid and that no two columns share a name.
pub fn check_schema(schema: &Vec<FieldDescriptor>) -> (r: Result<(), DbError>)
    ensures
        r == schema_check_spec(schema@),
{
    let n = schema.len();
    let mut i: usize = 0;
    while i < n
        invariant
            n == schema@.len(),
            i <= n,
            forall|k: int| 0 <= k < i ==> valid_column_name(#[trigger] schema@[k].name@),
        decreases n - i,
    {
        if !is_valid_column_name(schema[i].name.as_str()) {
            return Err(DbError::InvalidColumnName);
        }
        i = i + 1;
    }
    let mut j: usize = 0;
    while j < n
        invariant
            n == schema@.len(),
            j <= n,
            forall|k: int| 0 <= k < n ==> valid_column_name(#[trigger] schema@[k].name@),
            forall|a: int, b: int|
                0 <= a < b < n && a < j ==> #[trigger] schema@[a].name@ != #[trigger] schema@[b].name@,
        decreases n - j,
    {
        let mut k: usize = j + 1;
        while k < n
            invariant
                n == schema@.len(),
                j < n,
                j + 1 <= k <= n,
                forall|k: int| 0 <= k < n ==> valid_column_name(#[trigger] schema@[k].name@),
                forall|a: int, b: int|
                    0 <= a < b < n && a < j ==> #[trigger] schema@[a].name@ != #[trigger] schema@[b].name@,
                forall|b: int| j < b < k ==> schema@[j as int].name@ != #[trigger] schema@[b].name@,
            decreases n - k,
        {
            if schema[j].name == schema[k].name {
                assert(!distinct_names(schema@));
                return Err(DbError::DuplicateColumn);
            }
            k = k + 1;
        }
        j = j + 1;
    }
    Ok(())
}

/// The first field of `fields` that carries `name`, if any.
pub open spec fn lookup(fields: Seq<Field>, name: Seq<char>) -> Option<Field>
    decreases fields.len(),
{
    if fields.len() == 0 {
        None
    } else {
        match lookup(fields.drop_last(), name) {
            Some(f) => Some(f),
            None => if fields.last().name@ == name {
                Some(fields.last())
            } else {
                None
            },
        }
    }
}

/// The fields cover the schema: one per column, each named after its column
/// and carrying a value of the column's type.
pub open spec fn conforms(schema: Seq<FieldDescriptor>, fields: Seq<Field>) -> bool {
    &&& fields.len() == schema.len()
    &&& forall|i: int|
        0 <= i < schema.len() ==> (#[trigger] lookup(fields, schema[i].name@) matches Some(f)
            && value_type(f.value) == schema[i].field_type)
}

/// The fields of a conforming set, put in schema order.
pub open spec fn arranged(schema: Seq<FieldDescriptor>, fields: Seq<Field>) -> Seq<Field> {
    Seq::new(schema.len(), |i: int| lookup(fields, schema[i].name@)->Some_0)
}

/// A sequence of fields that stands in schema order and matches the schema.
pub open spec fn in_schema_order(schema: Seq<FieldDescriptor>, fields: Seq<Field>) -> bool {
    &&& fields.len() == schema.len()
    &&& forall|i: int|
        0 <= i < schema.len() ==> (#[trigger] fields[i]).name@ == schema[i].name@
            && value_type(fields[i].value) == schema[i].field_type
}

/// The arrangement of a conforming set stands in schema order.
pub proof fn lemma_arranged_in_order(schema: Seq<FieldDescriptor>, fields: Seq<Field>)
    requires
        conforms(schema, fields),
    ensures
        in_schema_order(schema, arranged(schema, fields)),
{
    assert forall|i: int| 0 <= i < schema.len() implies (#[trigger] arranged(
        schema,
        fields,
    )[i]).name@ == schema[i].name@ by {
        lemma_lookup_name(fields, schema[i].name@);
    }
}

proof fn lemma_lookup_name(fields: Seq<Field>, name: Seq<char>)
    ensures
        lookup(fields, name) matches Some(f) ==> f.name@ == name,
    decreases fields.len(),
{
    if fields.len() > 0 {
        lemma_lookup_name(fields.drop_last(), name);
    }
}

/// Finds the first field carrying `name`.
fn find_field(fields: &Vec<Field>, name: &String) -> (r: Option<usize>)
    ensures
        match r {
            Some(k) => k < fields@.len() && lookup(fields@, name@) == Some(fields@[k as int]),
            None => lookup(fields@, name@) is None,
        },
{
    let n = fields.len();
    let mut i: usize = 0;
    while i < n
        invariant
            n == fields@.len(),
            i <= n,
            lookup(fields@.take(i as int), name@) is None,
        decreases n - i,
    {
        assert(fields@.take(i + 1).drop_last() =~= fields@.take(i as int));
        if fields[i].name == *name {
            proof {
                lemma_lookup_extend(fields@, name@, i as int + 1);
            }
            return Some(i);
        }
        i = i + 1;
    }
    assert(fields@.take(n as int) =~= fields@);
    None
}

/// Once a prefix holds a field of the name, every longer prefix finds the same one.
proof fn lemma_lookup_extend(fields: Seq<Field>, name: Seq<char>, k: int)
    requires
        0 <= k <= fields.len(),
        lookup(fields.take(k), name) is Some,
    ensures
        lookup(fields, name) == lookup(fields.take(k), name),
    decreases fields.len() - k,
{
    if k < fields.len() {
        assert(fields.take(k + 1).drop_last() =~= fields.take(k));
        lemma_lookup_extend(fields, name, k + 1);
    } else {
        assert(fields.take(k) =~= fields);
    }
}

/// Puts the fields of an insertion in schema order, or reports that they do
/// not cover the schema.
pub fn arrange_fields(schema: &Vec<FieldDescriptor>, fields: &Vec<Field>) -> (r: Result<
    Vec<Field>,
    DbError,
>)
    ensures
        match r {
            Ok(v) => conforms(schema@, fields@) && v@ == arranged(schema@, fields@),
            Err(e) => !conforms(schema@, fields@) && e == DbError::FieldMismatch,
        },
{
    let n = schema.len();
    if fields.len() != n {
        return Err(DbError::FieldMismatch);
    }
    let mut out: Vec<Field> = Vec::new();
    let mut i: usize = 0;
    while i < n
        invariant
            n == schema@.len(),
            n == fields@.len(),
            i <= n,
            out@.len() == i,
            forall|k: int|
                0 <= k < i ==> (#[trigger] lookup(fields@, schema@[k].name@) matches Some(f)
                    && value_type(f.value) == schema@[k].field_type && out@[k] == f),
        decreases n - i,
    {
        match find_field(fields, &schema[i].name) {
            None => {
                return Err(DbError::FieldMismatch);
            },
            Some(k) => {
                if fields[k].value.field_type() != schema[i].field_type {
                    return Err(DbError::FieldMismatch);
                }
                out.push(fields[k].copy());
            },
        }
        i = i + 1;
    }
    assert(out@ =~= arranged(schema@, fields@));
    Ok(out)
}

} // verus!
