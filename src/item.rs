use vstd::prelude::*;

use crate::schema::{Field, Timestamp};

verus! {

/// One stored record: its id, its fields in schema order, and when it was
/// completed (`None` while it is pending).
#[derive(Clone, Debug, PartialEq, Eq)]
pub struct DbItem {
    pub id: u64,
    pub fields: Vec<Field>,
    pub completed_at: Option<Timestamp>,
}

/// The mathematical value of a record.
pub struct ItemModel {
    pub id: u64,
    pub fields: Seq<Field>,
    pub completed_at: Option<Timestamp>,
}

impl View for DbItem {
    type V = ItemModel;

    open spec fn view(&self) -> ItemModel {
        ItemModel { id: self.id, fields: self.fields@, completed_at: self.completed_at }
    }
}

/// The values of a sequence of records.
pub open spec fn views(s: Seq<DbItem>) -> Seq<ItemModel> {
    s.map_values(|r: DbItem| r@)
}

/// Pushing a record pushes its value.
pub proof fn lemma_views_push(s: Seq<DbItem>, x: DbItem)
    ensures
        views(s.push(x)) == views(s).push(x@),
{
    assert(views(s.push(x)) =~= views(s).push(x@));
}

/// A prefix of the records has the prefix of their values.
pub proof fn lemma_views_take(s: Seq<DbItem>, i: int)
    requires
        0 <= i < s.len(),
    ensures
        views(s).take(i + 1) == views(s).take(i).push(s[i]@),
        views(s).len() == s.len(),
{
    assert(views(s).take(i + 1) =~= views(s).take(i).push(s[i]@));
}

/// A record is pending while it has no completion time.
pub open spec fn is_pending(r: ItemModel) -> bool {
    r.completed_at is None
}

/// A copy of a sequence of fields.
pub fn copy_fields(v: &Vec<Field>) -> (r: Vec<Field>)
    ensures
        r@ == v@,
{
    let mut out: Vec<Field> = Vec::new();
    let mut i: usize = 0;
    while i < v.len()
        invariant
            i <= v@.len(),
            out@ == v@.take(i as int),
        decreases v@.len() - i,
    {
        out.push(v[i].copy());
        assert(out@ =~= v@.take(i + 1));
        i = i + 1;
    }
    assert(v@.take(v@.len() as int) =~= v@);
    out
}

impl DbItem {
    /// A copy of this record.
    pub fn copy(&self) -> (r: DbItem)
        ensures
            r@ == self@,
    {
        DbItem { id: self.id, fields: copy_fields(&self.fields), completed_at: self.completed_at }
    }

    /// Whether the record is still pending.
    pub fn is_pending(&self) -> (r: bool)
        ensures
            r == is_pending(self@),
    {
        self.completed_at.is_none()
    }
}

} // verus!
