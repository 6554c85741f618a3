use vstd::prelude::*;

pub mod collection;
pub mod http_client;
pub mod item;
pub mod laws;
pub mod row;
pub mod schema;
pub mod sql;
pub mod sqlite;
pub mod text;

verus! {

} // verus!
