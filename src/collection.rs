use vstd::prelude::*;

use crate::item::{is_pending, lemma_views_push, lemma_views_take, views, DbItem, ItemModel};
use crate::schema::{
    arrange_fields, arranged, check_schema, conforms, in_schema_order, schema_check_spec,
    valid_schema, DbError, Field, FieldDescriptor, Timestamp, Value,
};

verus! {

/// The mathematical value of a collection: its schema, its records in id
/// order, and the id the next insertion receives.
pub struct CollectionModel {
    pub schema: Seq<FieldDescriptor>,
    pub records: Seq<ItemModel>,
    pub next_id: nat,
}

/// Ids strictly increase along the sequence.
pub open spec fn ids_increasing(records: Seq<ItemModel>) -> bool {
    forall|i: int, j: int| 0 <= i < j < records.len() ==> #[trigger] records[i].id < #[trigger] records[j].id
}

/// The invariant of a collection: a valid schema, records that follow it,
/// ids that are positive, strictly increasing and below the next id.
pub open spec fn model_wf(m: CollectionModel) -> bool {
    &&& valid_schema(m.schema)
    &&& ids_increasing(m.records)
    &&& 1 <= m.next_id <= u64::MAX
    &&& forall|i: int|
        0 <= i < m.records.len() ==> 1 <= (#[trigger] m.records[i]).id < m.next_id
            && in_schema_order(m.schema, m.records[i].fields)
}

/// Whether some record carries the id.
pub open spec fn has_id(records: Seq<ItemModel>, id: u64) -> bool {
    exists|i: int| 0 <= i < records.len() && (#[trigger] records[i]).id == id
}

/// The record that an insertion of `fields` adds.
pub open spec fn new_record(m: CollectionModel, fields: Seq<Field>) -> ItemModel {
    ItemModel { id: m.next_id as u64, fields: arranged(m.schema, fields), completed_at: None }
}

/// The collection after inserting `fields`.
pub open spec fn insert_spec(m: CollectionModel, fields: Seq<Field>) -> CollectionModel {
    CollectionModel {
        schema: m.schema,
        records: m.records.push(new_record(m, fields)),
        next_id: m.next_id + 1,
    }
}

/// The records after deleting the one with `id`, if there is one.
pub open spec fn delete_spec(records: Seq<ItemModel>, id: u64) -> Seq<ItemModel> {
    records.filter(other_id(id))
}

/// Holds of the records whose id is not `id`.
pub open spec fn other_id(id: u64) -> spec_fn(ItemModel) -> bool {
    |r: ItemModel| r.id != id
}

/// Holds of the pending records.
pub open spec fn pending() -> spec_fn(ItemModel) -> bool {
    |r: ItemModel| is_pending(r)
}

/// Holds of the records that a search for `needle` finds.
pub open spec fn found_by(needle: Seq<char>) -> spec_fn(ItemModel) -> bool {
    |r: ItemModel| text_matches(r.fields, needle)
}

/// The records after setting the completion time of the one with `id`.
pub open spec fn mark_spec(records: Seq<ItemModel>, id: u64, c: Option<Timestamp>) -> Seq<
    ItemModel,
> {
    records.map_values(
        |r: ItemModel|
            if r.id == id {
                ItemModel { id: r.id, fields: r.fields, completed_at: c }
            } else {
                r
            },
    )
}

/// The record with `id`, if there is one.
pub open spec fn get_spec(records: Seq<ItemModel>, id: u64) -> Option<ItemModel> {
    if has_id(records, id) {
        Some(records[choose|i: int| 0 <= i < records.len() && (#[trigger] records[i]).id == id])
    } else {
        None
    }
}

/// The pending records, in id order.
pub open spec fn undone_spec(records: Seq<ItemModel>) -> Seq<ItemModel> {
    records.filter(pending())
}

/// The order of completed records: by completion time, then by id.
pub open spec fn done_before(a: ItemModel, b: ItemModel) -> bool {
    let ta = a.completed_at->Some_0.secs;
    let tb = b.completed_at->Some_0.secs;
    ta < tb || (ta == tb && a.id < b.id)
}

/// `out` lists exactly the completed records, by completion time, then by id.
pub open spec fn done_list(records: Seq<ItemModel>, out: Seq<ItemModel>) -> bool {
    &&& forall|i: int, j: int| 0 <= i < j < out.len() ==> done_before(#[trigger] out[i], #[trigger] out[j])
    &&& forall|r: ItemModel| #[trigger] out.contains(r) <==> (records.contains(r) && !is_pending(r))
}

/// `needle` occurs in `hay` as a contiguous run.
pub open spec fn is_substring(needle: Seq<char>, hay: Seq<char>) -> bool {
    exists|i: int| 0 <= i <= hay.len() - needle.len() && #[trigger] hay.subrange(i, i + needle.len()) == needle
}

/// Some text field of the record holds `needle`.
pub open spec fn text_matches(fields: Seq<Field>, needle: Seq<char>) -> bool {
    exists|i: int|
        0 <= i < fields.len() && (#[trigger] fields[i]).value is Text && is_substring(
            needle,
            fields[i].value->Text_0@,
        )
}

/// The records that a search for `needle` gives, in id order.
pub open spec fn find_spec(records: Seq<ItemModel>, needle: Seq<char>) -> Seq<ItemModel> {
    records.filter(found_by(needle))
}

/// Whether `needle` occurs in `hay`.
pub fn contains_substring(hay: &str, needle: &str) -> (r: bool)
    ensures
        r == is_substring(needle@, hay@),
{
    let h = hay.unicode_len();
    let n = needle.unicode_len();
    if n > h {
        return false;
    }
    let mut i: usize = 0;
    while i <= h - n
        invariant
            h == hay@.len(),
            n == needle@.len(),
            n <= h,
            i <= h - n + 1,
            forall|k: int| 0 <= k < i ==> #[trigger] hay@.subrange(k, k + n) != needle@,
        decreases h - n + 1 - i,
    {
        let mut j: usize = 0;
        let mut same = true;
        while j < n
            invariant
                h == hay@.len(),
                n == needle@.len(),
                i + n <= h,
                j <= n,
                same ==> hay@.subrange(i as int, i + j) == needle@.take(j as int),
                !same ==> hay@.subrange(i as int, i + n) != needle@,
            decreases n - j,
        {
            if same {
                if hay.get_char(i + j) != needle.get_char(j) {
                    assert(hay@.subrange(i as int, i + n)[j as int] != needle@[j as int]);
                    same = false;
                } else {
                    assert(hay@.subrange(i as int, i + j + 1) =~= hay@.subrange(i as int, i + j).push(
                        hay@[i + j],
                    ));
                    assert(needle@.take(j + 1) =~= needle@.take(j as int).push(needle@[j as int]));
                }
            }
            j = j + 1;
        }
        if same {
            assert(needle@.take(n as int) =~= needle@);
            return true;
        }
        if i == h - n {
            assert forall|k: int| 0 <= k <= h - n implies #[trigger] hay@.subrange(k, k + n)
                != needle@ by {}
            return false;
        }
        i = i + 1;
    }
    assert forall|k: int| 0 <= k <= h - n implies #[trigger] hay@.subrange(k, k + n) != needle@ by {}
    false
}

/// Whether some text field among `fields` holds `needle`.
pub fn fields_match(fields: &Vec<Field>, needle: &str) -> (r: bool)
    ensures
        r == text_matches(fields@, needle@),
{
    let mut i: usize = 0;
    while i < fields.len()
        invariant
            i <= fields@.len(),
            forall|k: int|
                0 <= k < i ==> !((#[trigger] fields@[k]).value is Text && is_substring(
                    needle@,
                    fields@[k].value->Text_0@,
                )),
        decreases fields@.len() - i,
    {
        match &fields[i].value {
            Value::Text(t) => {
                if contains_substring(t.as_str(), needle) {
                    return true;
                }
            },
            _ => {},
        }
        i = i + 1;
    }
    false
}

/// A collection of records held in memory, with the semantics that every
/// backend of the store must show.
pub struct Collection {
    schema: Vec<FieldDescriptor>,
    items: Vec<DbItem>,
    next_id: u64,
}

impl View for Collection {
    type V = CollectionModel;

    closed spec fn view(&self) -> CollectionModel {
        CollectionModel {
            schema: self.schema@,
            records: views(self.items@),
            next_id: self.next_id as nat,
        }
    }
}

impl Collection {
    /// The collection invariant.
    pub open spec fn wf(&self) -> bool {
        model_wf(self@)
    }

    /// An empty collection with the given schema; fails if a column name is
    /// invalid or repeated.
    pub fn new(schema: Vec<FieldDescriptor>) -> (r: Result<Collection, DbError>)
        ensures
            match r {
                Ok(c) => schema_check_spec(schema@) is Ok && c.wf() && c@ == CollectionModel {
                    schema: schema@,
                    records: Seq::empty(),
                    next_id: 1,
                },
                Err(e) => schema_check_spec(schema@) == Err::<(), DbError>(e),
            },
    {
        match check_schema(&schema) {
            Err(e) => Err(e),
            Ok(()) => {
                let c = Collection { schema, items: Vec::new(), next_id: 1 };
                assert(views(c.items@) =~= Seq::empty());
                Ok(c)
            },
        }
    }

    /// The schema, fixed for the collection's lifetime.
    pub fn schema(&self) -> (r: &Vec<FieldDescriptor>)
        ensures
            r@ == self@.schema,
    {
        &self.schema
    }

    /// Appends a pending record with a fresh id, its fields put in schema
    /// order; fails if the fields do not cover the schema or no id is left.
    pub fn insert(&mut self, fields: &Vec<Field>) -> (r: Result<u64, DbError>)
        requires
            old(self).wf(),
        ensures
            final(self).wf(),
            match r {
                Ok(id) => conforms(old(self)@.schema, fields@) && old(self)@.next_id < u64::MAX
                    && id == old(self)@.next_id && final(self)@ == insert_spec(old(self)@, fields@),
                Err(e) => final(self)@ == old(self)@ && if !conforms(old(self)@.schema, fields@) {
                    e == DbError::FieldMismatch
                } else {
                    old(self)@.next_id == u64::MAX && e == DbError::Exhausted
                },
            },
    {
        let arranged_fields = match arrange_fields(&self.schema, fields) {
            Err(e) => {
                return Err(e);
            },
            Ok(v) => v,
        };
        if self.next_id == u64::MAX {
            return Err(DbError::Exhausted);
        }
        let id = self.next_id;
        let ghost before = self@;
        proof {
            crate::schema::lemma_arranged_in_order(before.schema, fields@);
        }
        self.items.push(DbItem { id, fields: arranged_fields, completed_at: None });
        self.next_id = id + 1;
        assert(self@.records =~= insert_spec(before, fields@).records);
        Ok(id)
    }

    /// All records, in id order.
    pub fn list_items(&self) -> (r: Vec<DbItem>)
        requires
            self.wf(),
        ensures
            views(r@) == self@.records,
    {
        let mut out: Vec<DbItem> = Vec::new();
        let mut i: usize = 0;
        while i < self.items.len()
            invariant
                i <= self.items@.len(),
                views(out@) == views(self.items@).take(i as int),
            decreases self.items@.len() - i,
        {
            let c = self.items[i].copy();
            proof {
                lemma_views_push(out@, c);
                lemma_views_take(self.items@, i as int);
            }
            out.push(c);
            i = i + 1;
        }
        assert(views(self.items@).take(i as int) =~= views(self.items@));
        out
    }

    fn position(&self, id: u64) -> (r: Option<usize>)
        requires
            self.wf(),
        ensures
            match r {
                Some(k) => k < self.items@.len() && self.items@[k as int].id == id,
                None => !has_id(self@.records, id),
            },
    {
        let mut i: usize = 0;
        while i < self.items.len()
            invariant
                i <= self.items@.len(),
                forall|k: int| 0 <= k < i ==> (#[trigger] self.items@[k]).id != id,
            decreases self.items@.len() - i,
        {
            if self.items[i].id == id {
                return Some(i);
            }
            i = i + 1;
        }
        assert forall|k: int| 0 <= k < self@.records.len() implies (#[trigger] self@.records[k]).id
            != id by {
            assert(self@.records[k] == self.items@[k]@);
        }
        None
    }

    /// The record with the id; `None` if there is none.
    pub fn get(&self, id: u64) -> (r: Option<DbItem>)
        requires
            self.wf(),
        ensures
            match r {
                Some(item) => get_spec(self@.records, id) == Some(item@),
                None => get_spec(self@.records, id) is None,
            },
    {
        match self.position(id) {
            None => None,
            Some(k) => {
                let item = self.items[k].copy();
                proof {
                    let recs = self@.records;
                    assert(recs[k as int].id == id);
                    let c = choose|i: int| 0 <= i < recs.len() && (#[trigger] recs[i]).id == id;
                    if c != k {
                        if c < k {
                            assert(recs[c].id < recs[k as int].id);
                        } else {
                            assert(recs[k as int].id < recs[c].id);
                        }
                    }
                }
                Some(item)
            },
        }
    }

    /// The pending records, in id order.
    pub fn list_undone(&self) -> (r: Vec<DbItem>)
        requires
            self.wf(),
        ensures
            views(r@) == undone_spec(self@.records),
    {
        let ghost recs = self@.records;
        let mut out: Vec<DbItem> = Vec::new();
        let mut i: usize = 0;
        while i < self.items.len()
            invariant
                recs == views(self.items@),
                i <= self.items@.len(),
                views(out@) == recs.take(i as int).filter(pending()),
            decreases self.items@.len() - i,
        {
            proof {
                lemma_views_take(self.items@, i as int);
                recs.take(i as int).lemma_filter_push(self.items@[i as int]@, pending());
            }
            if self.items[i].is_pending() {
                let c = self.items[i].copy();
                proof {
                    lemma_views_push(out@, c);
                }
                out.push(c);
            }
            i = i + 1;
        }
        assert(recs.take(i as int) =~= recs);
        out
    }

    /// The records with a text field that holds `needle`, in id order.
    pub fn find(&self, needle: &str) -> (r: Vec<DbItem>)
        requires
            self.wf(),
        ensures
            views(r@) == find_spec(self@.records, needle@),
    {
        let ghost recs = self@.records;
        let mut out: Vec<DbItem> = Vec::new();
        let mut i: usize = 0;
        while i < self.items.len()
            invariant
                recs == views(self.items@),
                i <= self.items@.len(),
                views(out@) == recs.take(i as int).filter(found_by(needle@)),
            decreases self.items@.len() - i,
        {
            proof {
                lemma_views_take(self.items@, i as int);
                recs.take(i as int).lemma_filter_push(self.items@[i as int]@, found_by(needle@));
            }
            if fields_match(&self.items[i].fields, needle) {
                let c = self.items[i].copy();
                proof {
                    lemma_views_push(out@, c);
                }
                out.push(c);
            }
            i = i + 1;
        }
        assert(recs.take(i as int) =~= recs);
        out
    }

    /// Sets the completion time of the record with the id; the record must
    /// exist, else nothing changes and the update fails.
    fn mark(&mut self, id: u64, c: Option<Timestamp>) -> (r: Result<(), DbError>)
        requires
            old(self).wf(),
        ensures
            final(self).wf(),
            if has_id(old(self)@.records, id) {
                r is Ok && final(self)@ == (CollectionModel {
                    records: mark_spec(old(self)@.records, id, c),
                    ..old(self)@
                })
            } else {
                r == Err::<(), DbError>(DbError::NotExactlyOne) && final(self)@ == old(self)@
            },
    {
        match self.position(id) {
            None => Err(DbError::NotExactlyOne),
            Some(k) => {
                let ghost before = self@;
                let mut it = self.items[k].copy();
                it.completed_at = c;
                self.items.set(k, it);
                proof {
                    let recs = before.records;
                    assert forall|j: int| 0 <= j < recs.len() && j != k implies #[trigger] recs[j].id
                        != id by {
                        if j < k {
                            assert(recs[j].id < recs[k as int].id);
                        } else {
                            assert(recs[k as int].id < recs[j].id);
                        }
                    }
                    assert(self@.records =~= mark_spec(recs, id, c));
                }
                Ok(())
            },
        }
    }

    /// Marks the record with the id as completed at `time`; fails, changing
    /// nothing, if no record has the id.
    pub fn done(&mut self, id: u64, time: Timestamp) -> (r: Result<(), DbError>)
        requires
            old(self).wf(),
        ensures
            final(self).wf(),
            if has_id(old(self)@.records, id) {
                r is Ok && final(self)@ == (CollectionModel {
                    records: mark_spec(old(self)@.records, id, Some(time)),
                    ..old(self)@
                })
            } else {
                r == Err::<(), DbError>(DbError::NotExactlyOne) && final(self)@ == old(self)@
            },
    {
        self.mark(id, Some(time))
    }

    /// Marks the record with the id as pending again; fails, changing
    /// nothing, if no record has the id.
    pub fn undone(&mut self, id: u64) -> (r: Result<(), DbError>)
        requires
            old(self).wf(),
        ensures
            final(self).wf(),
            if has_id(old(self)@.records, id) {
                r is Ok && final(self)@ == (CollectionModel {
                    records: mark_spec(old(self)@.records, id, None),
                    ..old(self)@
                })
            } else {
                r == Err::<(), DbError>(DbError::NotExactlyOne) && final(self)@ == old(self)@
            },
    {
        self.mark(id, None)
    }

    /// One pending record, the one at `pick` (taken modulo their number)
    /// among the pending records in id order; `None` if none is pending.
    /// A uniformly drawn `pick` gives a uniform choice.
    pub fn get_random(&self, pick: usize) -> (r: Option<DbItem>)
        requires
            self.wf(),
        ensures
            match r {
                None => undone_spec(self@.records).len() == 0,
                Some(item) => is_pending(item@) && self@.records.contains(item@) && undone_spec(
                    self@.records,
                ).len() > 0 && item@ == undone_spec(
                    self@.records,
                )[pick as int % undone_spec(self@.records).len() as int],
            },
    {
        let candidates = self.list_undone();
        let n = candidates.len();
        if n == 0 {
            None
        } else {
            let k = pick % n;
            proof {
                let u = undone_spec(self@.records);
                assert(u.contains(u[k as int]));
                crate::laws::lemma_filter_member(self@.records, pending(), u[k as int]);
            }
            Some(candidates[k].copy())
        }
    }

    /// The completed records, by completion time, then by id.
    pub fn list_done(&self) -> (r: Vec<DbItem>)
        requires
            self.wf(),
        ensures
            done_list(self@.records, views(r@)),
    {
        let ghost recs = self@.records;
        let mut out: Vec<DbItem> = Vec::new();
        let mut i: usize = 0;
        while i < self.items.len()
            invariant
                recs == views(self.items@),
                model_wf(self@),
                self@.records == recs,
                i <= self.items@.len(),
                forall|a: int, b: int|
                    0 <= a < b < out@.len() ==> done_before(
                        #[trigger] views(out@)[a],
                        #[trigger] views(out@)[b],
                    ),
                forall|x: ItemModel|
                    #[trigger] views(out@).contains(x) <==> (recs.take(i as int).contains(x)
                        && !is_pending(x)),
            decreases self.items@.len() - i,
        {
            let ghost o0 = views(out@);
            proof {
                lemma_views_take(self.items@, i as int);
                lemma_push_contains(recs.take(i as int), recs[i as int]);
            }
            if !self.items[i].is_pending() {
                let c = self.items[i].copy();
                let ghost x = c@;
                let ghost o = views(out@);
                proof {
                    assert forall|q: int| 0 <= q < o.len() implies (#[trigger] o[q]).id < x.id by {
                        assert(o.contains(o[q]));
                        let t = recs.take(i as int);
                        assert(t.contains(o[q]));
                        let j = choose|j: int| 0 <= j < t.len() && t[j] == o[q];
                        assert(t[j] == recs[j]);
                        assert(recs[j].id < recs[i as int].id);
                    }
                    assert forall|q: int| 0 <= q < out@.len() implies !is_pending(
                        #[trigger] out@[q]@,
                    ) by {
                        assert(o[q] == out@[q]@);
                        assert(o.contains(o[q]));
                    }
                }
                let mut p: usize = 0;
                let mut found = false;
                while !found && p < out.len()
                    invariant
                        o == views(out@),
                        x == c@,
                        !is_pending(x),
                        p <= out@.len(),
                        found ==> p < out@.len() && done_before(x, o[p as int]),
                        forall|q: int| 0 <= q < p ==> done_before(#[trigger] o[q], x),
                        forall|q: int| 0 <= q < o.len() ==> (#[trigger] o[q]).id < x.id,
                        forall|q: int| 0 <= q < out@.len() ==> !is_pending(#[trigger] out@[q]@),
                    decreases out@.len() - p + (if found { 0int } else { 1int }),
                {
                    assert(o[p as int] == out@[p as int]@);
                    if done_key_before(&c, &out[p]) {
                        found = true;
                    } else {
                        p = p + 1;
                    }
                }
                proof {
                    lemma_insert_contains(o, p as int, x);
                    lemma_views_insert(out@, p as int, c);
                }
                out.insert(p, c);
                proof {
                    let n = views(out@);
                    assert(n == o.insert(p as int, x));
                    assert forall|a: int, b: int| 0 <= a < b < n.len() implies done_before(
                        #[trigger] n[a],
                        #[trigger] n[b],
                    ) by {
                        if b < p {
                            assert(done_before(o[a], o[b]));
                        } else if b == p {
                            assert(done_before(o[a], x));
                        } else if a == p {
                            assert(done_before(x, o[p as int]));
                            if b - 1 > p {
                                assert(done_before(o[p as int], o[b - 1]));
                            }
                        } else if a < p {
                            assert(done_before(o[a], o[b - 1]));
                        } else {
                            assert(done_before(o[a - 1], o[b - 1]));
                        }
                    }
                }
            }
            proof {
                assert forall|y: ItemModel| #[trigger] views(out@).contains(y) <==> (recs.take(
                    i + 1,
                ).contains(y) && !is_pending(y)) by {
                    assert(o0.contains(y) <==> (recs.take(i as int).contains(y) && !is_pending(y)));
                }
            }
            i = i + 1;
        }
        assert(recs.take(i as int) =~= recs);
        out
    }

    /// Removes the record with the id; nothing changes if there is none.
    pub fn delete(&mut self, id: u64)
        requires
            old(self).wf(),
        ensures
            final(self).wf(),
            final(self)@ == (CollectionModel {
                records: delete_spec(old(self)@.records, id),
                ..old(self)@
            }),
    {
        let ghost recs = self@.records;
        let mut kept: Vec<DbItem> = Vec::new();
        let mut i: usize = 0;
        while i < self.items.len()
            invariant
                recs == views(self.items@),
                i <= self.items@.len(),
                views(kept@) == recs.take(i as int).filter(other_id(id)),
            decreases self.items@.len() - i,
        {
            proof {
                lemma_views_take(self.items@, i as int);
                recs.take(i as int).lemma_filter_push(self.items@[i as int]@, other_id(id));
            }
            if self.items[i].id != id {
                let c = self.items[i].copy();
                proof {
                    lemma_views_push(kept@, c);
                }
                kept.push(c);
            }
            i = i + 1;
        }
        assert(recs.take(i as int) =~= recs);
        let ghost before = self@;
        self.items = kept;
        proof {
            lemma_filter_keeps_wf(before, other_id(id));
        }
    }
}

fn done_key_before(a: &DbItem, b: &DbItem) -> (r: bool)
    requires
        !is_pending(a@),
        !is_pending(b@),
    ensures
        r == done_before(a@, b@),
{
    match (a.completed_at, b.completed_at) {
        (Some(ta), Some(tb)) => ta.secs < tb.secs || (ta.secs == tb.secs && a.id < b.id),
        _ => false,
    }
}

proof fn lemma_push_contains(s: Seq<ItemModel>, x: ItemModel)
    ensures
        forall|y: ItemModel| s.push(x).contains(y) <==> (s.contains(y) || y == x),
{
    assert forall|y: ItemModel| s.push(x).contains(y) implies (s.contains(y) || y == x) by {
        let j = choose|j: int| 0 <= j < s.len() + 1 && s.push(x)[j] == y;
        if j < s.len() {
            assert(s[j] == y);
        }
    }
    assert forall|y: ItemModel| (s.contains(y) || y == x) implies s.push(x).contains(y) by {
        if y == x {
            assert(s.push(x)[s.len() as int] == y);
        } else {
            let j = choose|j: int| 0 <= j < s.len() && s[j] == y;
            assert(s.push(x)[j] == y);
        }
    }
}

proof fn lemma_insert_contains(s: Seq<ItemModel>, p: int, x: ItemModel)
    requires
        0 <= p <= s.len(),
    ensures
        forall|y: ItemModel| s.insert(p, x).contains(y) <==> (s.contains(y) || y == x),
{
    let t = s.insert(p, x);
    assert forall|y: ItemModel| t.contains(y) implies (s.contains(y) || y == x) by {
        let j = choose|j: int| 0 <= j < t.len() && t[j] == y;
        if j < p {
            assert(s[j] == y);
        } else if j > p {
            assert(s[j - 1] == y);
        }
    }
    assert forall|y: ItemModel| (s.contains(y) || y == x) implies t.contains(y) by {
        if y == x {
            assert(t[p] == y);
        } else {
            let j = choose|j: int| 0 <= j < s.len() && s[j] == y;
            if j < p {
                assert(t[j] == y);
            } else {
                assert(t[j + 1] == y);
            }
        }
    }
}

proof fn lemma_views_insert(s: Seq<DbItem>, p: int, x: DbItem)
    requires
        0 <= p <= s.len(),
    ensures
        views(s.insert(p, x)) == views(s).insert(p, x@),
{
    assert(views(s.insert(p, x)) =~= views(s).insert(p, x@));
}

/// Keeping a subsequence of the records keeps the invariant.
proof fn lemma_filter_keeps_wf(m: CollectionModel, p: spec_fn(ItemModel) -> bool)
    requires
        model_wf(m),
    ensures
        model_wf(CollectionModel { records: m.records.filter(p), ..m }),
{
    let f = m.records.filter(p);
    lemma_filter_increasing(m.records, p);
    assert forall|i: int| 0 <= i < f.len() implies 1 <= (#[trigger] f[i]).id < m.next_id
        && in_schema_order(m.schema, f[i].fields) by {
        let j = choose|j: int| 0 <= j < m.records.len() && m.records[j] == f[i];
        assert(m.records[j] == f[i]);
    }
}

/// A subsequence of records with increasing ids has increasing ids.
proof fn lemma_filter_increasing(s: Seq<ItemModel>, p: spec_fn(ItemModel) -> bool)
    requires
        ids_increasing(s),
    ensures
        ids_increasing(s.filter(p)),
        forall|k: int| 0 <= k < s.filter(p).len() ==> exists|j: int| 0 <= j < s.len() && s[j] == #[trigger] s.filter(p)[k],
    decreases s.len(),
{
    reveal(Seq::filter);
    if s.len() > 0 {
        let t = s.drop_last();
        assert(ids_increasing(t));
        lemma_filter_increasing(t, p);
        let ft = t.filter(p);
        if p(s.last()) {
            let f = ft.push(s.last());
            assert forall|k: int| 0 <= k < f.len() implies exists|j: int| 0 <= j < s.len() && s[j] == #[trigger] f[k] by {
                if k < ft.len() {
                    let j = choose|j: int| 0 <= j < t.len() && t[j] == ft[k];
                    assert(s[j] == f[k]);
                } else {
                    assert(s[s.len() - 1] == f[k]);
                }
            }
            assert forall|a: int, b: int| 0 <= a < b < f.len() implies #[trigger] f[a].id < #[trigger] f[b].id by {
                if b == f.len() - 1 {
                    let j = choose|j: int| 0 <= j < t.len() && t[j] == ft[a];
                    assert(s[j].id < s[s.len() - 1].id);
                } else {
                    assert(ft[a].id < ft[b].id);
                }
            }
        }
    }
}

} // verus!
