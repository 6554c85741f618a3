use vstd::prelude::*;

use crate::schema::{FieldDescriptor, FieldType};
use crate::text::{join, joined, lemma_string_views_push, string_views};

verus! {

/// Removes the record with the bound id; touches no row if there is none.
pub const DELETE_ITEM_SQL: &'static str = "DELETE FROM items WHERE id = ?";

/// Sets the completion time (first parameter) of the record with the bound id.
pub const MARK_DONE_SQL: &'static str = "UPDATE items SET completed_at = ? WHERE id = ?";

/// Clears the completion time of the record with the bound id.
pub const MARK_UNDONE_SQL: &'static str = "UPDATE items SET completed_at = NULL WHERE id = ?";

/// Creates the table that holds a collection's schema, one row per column.
pub const CREATE_FIELDS_SQL: &'static str =
    "CREATE TABLE fields (position INTEGER PRIMARY KEY, name TEXT NOT NULL, type TEXT NOT NULL)";

/// Stores one column of the schema: position, name, type name.
pub const INSERT_FIELD_SQL: &'static str = "INSERT INTO fields (position, name, type) VALUES (?, ?, ?)";

/// Reads the schema back, in column order.
pub const SELECT_FIELDS_SQL: &'static str = "SELECT position, name, type FROM fields ORDER BY position";

/// Which records a query selects, and in which order.
#[derive(Clone, Copy, Debug, PartialEq, Eq, Structural)]
pub enum Query {
    /// Every record, by id.
    All,
    /// The completed records, by completion time, then id.
    Done,
    /// The pending records, by id.
    Undone,
    /// The record with the bound id.
    ById,
    /// One pending record drawn at random.
    Random,
    /// The records with a text column that matches a bound pattern, by id.
    Find,
}

/// An identifier quoted for the statement text.
pub open spec fn quoted(name: Seq<char>) -> Seq<char> {
    "\""@ + name + "\""@
}

/// The storage type of a column.
pub open spec fn sql_type(t: FieldType) -> Seq<char> {
    match t {
        FieldType::Text => "TEXT"@,
        _ => "INTEGER"@,
    }
}

/// The definition of one column in the table of records.
pub open spec fn column_def(d: FieldDescriptor) -> Seq<char> {
    quoted(d.name@) + " "@ + sql_type(d.field_type)
}

/// The quoted names of the schema's columns.
pub open spec fn quoted_names(schema: Seq<FieldDescriptor>) -> Seq<Seq<char>> {
    schema.map_values(|d: FieldDescriptor| quoted(d.name@))
}

/// The statement that creates the table of records for a schema.
pub open spec fn create_items_spec(schema: Seq<FieldDescriptor>) -> Seq<char> {
    "CREATE TABLE items ("@ + joined(
        seq!["id INTEGER PRIMARY KEY AUTOINCREMENT"@, "completed_at INTEGER"@] + schema.map_values(
            |d: FieldDescriptor| column_def(d),
        ),
        ", "@,
    ) + ")"@
}

/// The statement that inserts one record, one bound parameter per column.
pub open spec fn insert_spec(schema: Seq<FieldDescriptor>) -> Seq<char> {
    if schema.len() == 0 {
        "INSERT INTO items DEFAULT VALUES"@
    } else {
        "INSERT INTO items ("@ + joined(quoted_names(schema), ", "@) + ") VALUES ("@ + joined(
            Seq::new(schema.len(), |i: int| "?"@),
            ", "@,
        ) + ")"@
    }
}

/// The text columns of a schema, in order.
pub open spec fn text_columns(schema: Seq<FieldDescriptor>) -> Seq<FieldDescriptor> {
    schema.filter(|d: FieldDescriptor| d.field_type == FieldType::Text)
}

/// The test of one text column against a bound pattern.
pub open spec fn like_clause(d: FieldDescriptor) -> Seq<char> {
    quoted(d.name@) + " LIKE ? ESCAPE '\\'"@
}

/// The condition of a query, with its leading keyword.
pub open spec fn where_spec(schema: Seq<FieldDescriptor>, q: Query) -> Seq<char> {
    match q {
        Query::All => Seq::empty(),
        Query::Done => " WHERE completed_at IS NOT NULL"@,
        Query::Undone => " WHERE completed_at IS NULL"@,
        Query::Random => " WHERE completed_at IS NULL"@,
        Query::ById => " WHERE id = ?"@,
        Query::Find => if text_columns(schema).len() == 0 {
            " WHERE 0"@
        } else {
            " WHERE "@ + joined(
                text_columns(schema).map_values(|d: FieldDescriptor| like_clause(d)),
                " OR "@,
            )
        },
    }
}

/// The ordering of a query.
pub open spec fn order_spec(q: Query) -> Seq<char> {
    match q {
        Query::Done => " ORDER BY completed_at, id"@,
        Query::Random => " ORDER BY random() LIMIT 1"@,
        Query::ById => Seq::empty(),
        _ => " ORDER BY id"@,
    }
}

/// The statement of a query: id, completion time, then the columns in
/// schema order.
pub open spec fn select_spec(schema: Seq<FieldDescriptor>, q: Query) -> Seq<char> {
    "SELECT "@ + joined(seq!["id"@, "completed_at"@] + quoted_names(schema), ", "@) + " FROM items"@
        + where_spec(schema, q) + order_spec(q)
}

fn quote(name: &String) -> (r: String)
    ensures
        r@ == quoted(name@),
{
    let mut s = String::from_str("\"");
    s.append(name.as_str());
    s.append("\"");
    s
}

fn sql_type_name(t: FieldType) -> (r: &'static str)
    ensures
        r@ == sql_type(t),
{
    match t {
        FieldType::Text => "TEXT",
        _ => "INTEGER",
    }
}

/// The statement that creates the table of records for a schema.
pub fn create_items_sql(schema: &Vec<FieldDescriptor>) -> (r: String)
    ensures
        r@ == create_items_spec(schema@),
{
    let ghost defs = schema@.map_values(|d: FieldDescriptor| column_def(d));
    let ghost fixed = seq!["id INTEGER PRIMARY KEY AUTOINCREMENT"@, "completed_at INTEGER"@];
    let mut parts: Vec<String> = Vec::new();
    parts.push(String::from_str("id INTEGER PRIMARY KEY AUTOINCREMENT"));
    parts.push(String::from_str("completed_at INTEGER"));
    let mut i: usize = 0;
    while i < schema.len()
        invariant
            i <= schema@.len(),
            defs == schema@.map_values(|d: FieldDescriptor| column_def(d)),
            string_views(parts@) == fixed + defs.take(i as int),
        decreases schema@.len() - i,
    {
        let mut def = quote(&schema[i].name);
        def.append(" ");
        def.append(sql_type_name(schema[i].field_type));
        proof {
            lemma_string_views_push(parts@, def);
        }
        parts.push(def);
        assert(string_views(parts@) =~= fixed + defs.take(i + 1));
        i = i + 1;
    }
    assert(defs.take(i as int) =~= defs);
    let mut s = String::from_str("CREATE TABLE items (");
    let body = join(&parts, ", ");
    s.append(body.as_str());
    s.append(")");
    s
}

fn quoted_list(schema: &Vec<FieldDescriptor>) -> (r: Vec<String>)
    ensures
        string_views(r@) == quoted_names(schema@),
{
    let mut parts: Vec<String> = Vec::new();
    let mut i: usize = 0;
    while i < schema.len()
        invariant
            i <= schema@.len(),
            string_views(parts@) == quoted_names(schema@).take(i as int),
        decreases schema@.len() - i,
    {
        let q = quote(&schema[i].name);
        proof {
            lemma_string_views_push(parts@, q);
        }
        parts.push(q);
        assert(string_views(parts@) =~= quoted_names(schema@).take(i + 1));
        i = i + 1;
    }
    assert(quoted_names(schema@).take(i as int) =~= quoted_names(schema@));
    parts
}

/// The statement that inserts one record; its parameters are the values of
/// the fields in schema order.
pub fn insert_sql(schema: &Vec<FieldDescriptor>) -> (r: String)
    ensures
        r@ == insert_spec(schema@),
{
    if schema.len() == 0 {
        return String::from_str("INSERT INTO items DEFAULT VALUES");
    }
    let names = quoted_list(schema);
    let mut marks: Vec<String> = Vec::new();
    let mut i: usize = 0;
    while i < schema.len()
        invariant
            i <= schema@.len(),
            string_views(marks@) == Seq::new(i as nat, |k: int| "?"@),
        decreases schema@.len() - i,
    {
        let m = String::from_str("?");
        proof {
            lemma_string_views_push(marks@, m);
        }
        marks.push(m);
        assert(string_views(marks@) =~= Seq::new((i + 1) as nat, |k: int| "?"@));
        i = i + 1;
    }
    let mut s = String::from_str("INSERT INTO items (");
    let cols = join(&names, ", ");
    s.append(cols.as_str());
    s.append(") VALUES (");
    let qs = join(&marks, ", ");
    s.append(qs.as_str());
    s.append(")");
    s
}

fn where_clause(schema: &Vec<FieldDescriptor>, q: Query) -> (r: String)
    ensures
        r@ == where_spec(schema@, q),
{
    match q {
        Query::All => String::new(),
        Query::Done => String::from_str(" WHERE completed_at IS NOT NULL"),
        Query::Undone => String::from_str(" WHERE completed_at IS NULL"),
        Query::Random => String::from_str(" WHERE completed_at IS NULL"),
        Query::ById => String::from_str(" WHERE id = ?"),
        Query::Find => {
            let ghost pred = |d: FieldDescriptor| d.field_type == FieldType::Text;
            let mut texts: Vec<String> = Vec::new();
            let mut i: usize = 0;
            while i < schema.len()
                invariant
                    i <= schema@.len(),
                    pred == (|d: FieldDescriptor| d.field_type == FieldType::Text),
                    string_views(texts@) == schema@.take(i as int).filter(pred).map_values(
                        |d: FieldDescriptor| like_clause(d),
                    ),
                decreases schema@.len() - i,
            {
                proof {
                    assert(schema@.take(i + 1) =~= schema@.take(i as int).push(schema@[i as int]));
                    schema@.take(i as int).lemma_filter_push(schema@[i as int], pred);
                }
                if schema[i].field_type == FieldType::Text {
                    let mut c = quote(&schema[i].name);
                    c.append(" LIKE ? ESCAPE '\\'");
                    let ghost before = string_views(texts@);
                    proof {
                        lemma_string_views_push(texts@, c);
                    }
                    texts.push(c);
                    assert(string_views(texts@) =~= before.push(like_clause(schema@[i as int])));
                    assert(schema@.take(i as int).filter(pred).push(schema@[i as int]).map_values(
                        |d: FieldDescriptor| like_clause(d),
                    ) =~= before.push(like_clause(schema@[i as int])));
                }
                i = i + 1;
            }
            assert(schema@.take(i as int) =~= schema@);
            if texts.len() == 0 {
                String::from_str(" WHERE 0")
            } else {
                let mut s = String::from_str(" WHERE ");
                let body = join(&texts, " OR ");
                s.append(body.as_str());
                s
            }
        },
    }
}

fn order_clause(q: Query) -> (r: &'static str)
    ensures
        r@ == order_spec(q),
{
    proof {
        reveal_strlit("");
    }
    match q {
        Query::Done => " ORDER BY completed_at, id",
        Query::Random => " ORDER BY random() LIMIT 1",
        Query::ById => "",
        _ => " ORDER BY id",
    }
}

/// The statement of a query over the table of records of a schema.
pub fn select_sql(schema: &Vec<FieldDescriptor>, q: Query) -> (r: String)
    ensures
        r@ == select_spec(schema@, q),
{
    let names = quoted_list(schema);
    let mut cols: Vec<String> = Vec::new();
    cols.push(String::from_str("id"));
    cols.push(String::from_str("completed_at"));
    let mut i: usize = 0;
    while i < names.len()
        invariant
            i <= names@.len(),
            string_views(cols@) == seq!["id"@, "completed_at"@] + string_views(names@).take(i as int),
        decreases names@.len() - i,
    {
        let c = names[i].clone();
        proof {
            lemma_string_views_push(cols@, c);
        }
        cols.push(c);
        assert(string_views(cols@) =~= seq!["id"@, "completed_at"@] + string_views(names@).take(
            i + 1,
        ));
        i = i + 1;
    }
    assert(string_views(names@).take(i as int) =~= string_views(names@));
    let mut s = String::from_str("SELECT ");
    let list = join(&cols, ", ");
    s.append(list.as_str());
    s.append(" FROM items");
    let w = where_clause(schema, q);
    s.append(w.as_str());
    s.append(order_clause(q));
    s
}

} // verus!
