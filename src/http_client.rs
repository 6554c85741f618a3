use vstd::prelude::*;

use crate::schema::DbError;
use crate::text::{decimal, decimal_spec};

verus! {

/// How a response of the remote service is read.
#[derive(Clone, Copy, Debug, PartialEq, Eq, Structural)]
pub enum Outcome {
    /// A 2xx status: the request succeeded.
    Success,
    /// A 404 status: what was asked for does not exist.
    Absent,
    /// Any other status: the service failed.
    Failed,
}

/// The outcome of a response status.
pub open spec fn outcome_spec(status: u16) -> Outcome {
    if 200 <= status <= 299 {
        Outcome::Success
    } else if status == 404 {
        Outcome::Absent
    } else {
        Outcome::Failed
    }
}

/// Reads a response status.
pub fn status_outcome(status: u16) -> (r: Outcome)
    ensures
        r == outcome_spec(status),
{
    if 200 <= status && status <= 299 {
        Outcome::Success
    } else if status == 404 {
        Outcome::Absent
    } else {
        Outcome::Failed
    }
}

/// For a request whose target may be absent (one record): `Ok(true)` when a
/// body follows, `Ok(false)` when the target is absent, an error otherwise.
pub fn optional_reply(status: u16) -> (r: Result<bool, DbError>)
    ensures
        r == match outcome_spec(status) {
            Outcome::Success => Ok::<bool, DbError>(true),
            Outcome::Absent => Ok(false),
            Outcome::Failed => Err(DbError::Backend),
        },
{
    match status_outcome(status) {
        Outcome::Success => Ok(true),
        Outcome::Absent => Ok(false),
        Outcome::Failed => Err(DbError::Backend),
    }
}

/// For a request whose target must exist: success, the given error when the
/// target is absent, a backend error otherwise.
pub fn required_reply(status: u16, absent: DbError) -> (r: Result<(), DbError>)
    ensures
        r == match outcome_spec(status) {
            Outcome::Success => Ok::<(), DbError>(()),
            Outcome::Absent => Err(absent),
            Outcome::Failed => Err(DbError::Backend),
        },
{
    match status_outcome(status) {
        Outcome::Success => Ok(()),
        Outcome::Absent => Err(absent),
        Outcome::Failed => Err(DbError::Backend),
    }
}

/// The remote catalog: a service reached under a base URL.
pub struct HttpDB {
    url: String,
}

fn concat3(a: &str, b: &str, c: &str) -> (r: String)
    ensures
        r@ == a@ + b@ + c@,
{
    let mut s = String::from_str(a);
    s.append(b);
    s.append(c);
    s
}

impl HttpDB {
    /// A catalog served under the base URL `url`.
    pub fn new(url: String) -> (r: HttpDB)
        ensures
            r.url_view() == url@,
    {
        HttpDB { url }
    }

    /// The base URL.
    pub closed spec fn url_view(&self) -> Seq<char> {
        self.url@
    }

    /// The base URL.
    pub fn url(&self) -> (r: &str)
        ensures
            r@ == self.url_view(),
    {
        self.url.as_str()
    }

    /// `{base}/list`: the names of the collections.
    pub fn list_url(&self) -> (r: String)
        ensures
            r@ == self.url_view() + "/list"@,
    {
        let mut s = self.url.clone();
        s.append("/list");
        s
    }

    /// `{base}/open/{name}`: the schema of a collection.
    pub fn open_url(&self, name: &str) -> (r: String)
        ensures
            r@ == self.url_view() + "/open/"@ + name@,
    {
        concat3(self.url.as_str(), "/open/", name)
    }

    /// `{base}/create/{name}`: creates a collection from a schema.
    pub fn create_url(&self, name: &str) -> (r: String)
        ensures
            r@ == self.url_view() + "/create/"@ + name@,
    {
        concat3(self.url.as_str(), "/create/", name)
    }

    /// `{base}/delete/{name}`: deletes a collection.
    pub fn delete_url(&self, name: &str) -> (r: String)
        ensures
            r@ == self.url_view() + "/delete/"@ + name@,
    {
        concat3(self.url.as_str(), "/delete/", name)
    }

    /// `{base}/{name}/items`: lists or inserts records.
    pub fn items_url(&self, name: &str) -> (r: String)
        ensures
            r@ == self.url_view() + "/"@ + name@ + "/items"@,
    {
        let mut s = concat3(self.url.as_str(), "/", name);
        s.append("/items");
        s
    }

    /// `{base}/{name}/items/{suffix}`.
    fn items_sub_url(&self, name: &str, suffix: &str) -> (r: String)
        ensures
            r@ == self.url_view() + "/"@ + name@ + "/items"@ + "/"@ + suffix@,
    {
        let mut s = self.items_url(name);
        s.append("/");
        s.append(suffix);
        s
    }

    /// `{base}/{name}/items/done`: the completed records.
    pub fn done_items_url(&self, name: &str) -> (r: String)
        ensures
            r@ == self.url_view() + "/"@ + name@ + "/items"@ + "/"@ + "done"@,
    {
        self.items_sub_url(name, "done")
    }

    /// `{base}/{name}/items/undone`: the pending records.
    pub fn undone_items_url(&self, name: &str) -> (r: String)
        ensures
            r@ == self.url_view() + "/"@ + name@ + "/items"@ + "/"@ + "undone"@,
    {
        self.items_sub_url(name, "undone")
    }

    /// `{base}/{name}/items/random`: one pending record drawn at random.
    pub fn random_url(&self, name: &str) -> (r: String)
        ensures
            r@ == self.url_view() + "/"@ + name@ + "/items"@ + "/"@ + "random"@,
    {
        self.items_sub_url(name, "random")
    }

    /// `{base}/{name}/items/search`: the records matching the `text` query.
    pub fn search_url(&self, name: &str) -> (r: String)
        ensures
            r@ == self.url_view() + "/"@ + name@ + "/items"@ + "/"@ + "search"@,
    {
        self.items_sub_url(name, "search")
    }

    /// `{base}/{name}/items/{id}`: reads or deletes one record.
    pub fn item_url(&self, name: &str, id: u64) -> (r: String)
        ensures
            r@ == self.url_view() + "/"@ + name@ + "/items"@ + "/"@ + decimal_spec(id as nat),
    {
        let digits = decimal(id);
        self.items_sub_url(name, digits.as_str())
    }

    /// `{base}/{name}/items/{id}/done`: marks a record done.
    pub fn mark_done_url(&self, name: &str, id: u64) -> (r: String)
        ensures
            r@ == self.url_view() + "/"@ + name@ + "/items"@ + "/"@ + decimal_spec(id as nat)
                + "/done"@,
    {
        let mut s = self.item_url(name, id);
        s.append("/done");
        s
    }

    /// `{base}/{name}/items/{id}/undone`: marks a record pending again.
    pub fn mark_undone_url(&self, name: &str, id: u64) -> (r: String)
        ensures
            r@ == self.url_view() + "/"@ + name@ + "/items"@ + "/"@ + decimal_spec(id as nat)
                + "/undone"@,
    {
        let mut s = self.item_url(name, id);
        s.append("/undone");
        s
    }
}

} // verus!
