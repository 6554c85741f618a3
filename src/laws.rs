use vstd::prelude::*;

use crate::collection::{
    delete_spec, done_list, find_spec, found_by, get_spec, has_id, ids_increasing, insert_spec,
    mark_spec, model_wf, new_record, pending, text_matches, undone_spec, CollectionModel,
};
use crate::item::{is_pending, ItemModel};
use crate::schema::{
    conforms, in_schema_order, lemma_arranged_in_order, lookup, Field, FieldType,
};

verus! {

/// A record is kept by a filter exactly when it is among the records and
/// satisfies the predicate.
pub proof fn lemma_filter_member(s: Seq<ItemModel>, p: spec_fn(ItemModel) -> bool, r: ItemModel)
    ensures
        s.filter(p).contains(r) <==> (s.contains(r) && p(r)),
{
    broadcast use vstd::seq_lib::group_filter_ensures;

    if s.filter(p).contains(r) {
        s.lemma_filter_contains_rev(p, r);
        let k = choose|k: int| 0 <= k < s.filter(p).len() && s.filter(p)[k] == r;
        assert(p(s.filter(p)[k]));
    }
    if s.contains(r) && p(r) {
        let i = choose|i: int| 0 <= i < s.len() && s[i] == r;
        s.lemma_filter_contains(p, i);
    }
}

proof fn lemma_lookup_member(fields: Seq<Field>, name: Seq<char>)
    ensures
        lookup(fields, name) matches Some(f) ==> fields.contains(f),
    decreases fields.len(),
{
    if fields.len() > 0 {
        let t = fields.drop_last();
        lemma_lookup_member(t, name);
        if let Some(f) = lookup(t, name) {
            let k = choose|k: int| 0 <= k < t.len() && t[k] == f;
            assert(fields[k] == f);
        } else if let Some(f) = lookup(fields, name) {
            assert(fields[fields.len() - 1] == f);
        }
    }
}

/// Inserting a conforming set of fields keeps the invariant and appends one
/// pending record after all earlier ones, whose fields stand in schema order
/// and are each one of the inserted fields: the one named after its column.
pub proof fn lemma_insert_round_trip(m: CollectionModel, fields: Seq<Field>)
    requires
        model_wf(m),
        conforms(m.schema, fields),
        m.next_id < u64::MAX,
    ensures
        model_wf(insert_spec(m, fields)),
        insert_spec(m, fields).records.len() == m.records.len() + 1,
        insert_spec(m, fields).records.take(m.records.len() as int) == m.records,
        insert_spec(m, fields).records.last().completed_at is None,
        in_schema_order(m.schema, insert_spec(m, fields).records.last().fields),
        forall|i: int|
            0 <= i < m.schema.len() ==> {
                let f = #[trigger] insert_spec(m, fields).records.last().fields[i];
                &&& fields.contains(f)
                &&& lookup(fields, m.schema[i].name@) == Some(f)
            },
{
    lemma_arranged_in_order(m.schema, fields);
    let m2 = insert_spec(m, fields);
    assert(m2.records.take(m.records.len() as int) =~= m.records);
    assert forall|i: int| 0 <= i < m.schema.len() implies {
        let f = #[trigger] m2.records.last().fields[i];
        &&& fields.contains(f)
        &&& lookup(fields, m.schema[i].name@) == Some(f)
    } by {
        lemma_lookup_member(fields, m.schema[i].name@);
    }
}

/// Each insertion receives an id above every id already present, so ids of
/// successive insertions are distinct and strictly increasing.
pub proof fn lemma_insert_fresh_id(m: CollectionModel, fields: Seq<Field>)
    requires
        model_wf(m),
        conforms(m.schema, fields),
        m.next_id < u64::MAX,
    ensures
        forall|i: int| 0 <= i < m.records.len() ==> (#[trigger] m.records[i]).id < new_record(m, fields).id,
        new_record(m, fields).id < insert_spec(m, fields).next_id,
        ids_increasing(insert_spec(m, fields).records),
        !has_id(m.records, new_record(m, fields).id),
{
    lemma_insert_round_trip(m, fields);
}

/// Two successive insertions receive distinct ids, the second above the
/// first, and both records are kept in id order.
pub proof fn lemma_successive_inserts(m: CollectionModel, first: Seq<Field>, second: Seq<Field>)
    requires
        model_wf(m),
        conforms(m.schema, first),
        conforms(m.schema, second),
        m.next_id + 1 < u64::MAX,
    ensures
        new_record(m, first).id < new_record(insert_spec(m, first), second).id,
        ids_increasing(insert_spec(insert_spec(m, first), second).records),
{
    lemma_insert_round_trip(m, first);
    lemma_insert_round_trip(insert_spec(m, first), second);
}

/// Marking a record done and then undone leaves it pending and every other
/// record as it was; a record that was pending is then back to its state.
pub proof fn lemma_done_undone_inverse(m: CollectionModel, id: u64, t: crate::schema::Timestamp)
    requires
        model_wf(m),
        has_id(m.records, id),
    ensures
        has_id(mark_spec(m.records, id, Some(t)), id),
        mark_spec(mark_spec(m.records, id, Some(t)), id, None) == mark_spec(m.records, id, None),
        get_spec(mark_spec(mark_spec(m.records, id, Some(t)), id, None), id) matches Some(r)
            && r.completed_at is None,
        get_spec(m.records, id) matches Some(r) && is_pending(r) ==> mark_spec(
            mark_spec(m.records, id, Some(t)),
            id,
            None,
        ) == m.records,
{
    let s1 = mark_spec(m.records, id, Some(t));
    let s2 = mark_spec(s1, id, None);
    let k = choose|k: int| 0 <= k < m.records.len() && (#[trigger] m.records[k]).id == id;
    assert(s1[k].id == id);
    assert(s2 =~= mark_spec(m.records, id, None));
    assert(s2[k].id == id);
    let c = choose|i: int| 0 <= i < s2.len() && (#[trigger] s2[i]).id == id;
    assert(s2[c].completed_at is None);
    let c0 = choose|i: int| 0 <= i < m.records.len() && (#[trigger] m.records[i]).id == id;
    if is_pending(m.records[c0]) {
        assert forall|i: int| 0 <= i < m.records.len() implies #[trigger] s2[i] == m.records[i] by {
            if m.records[i].id == id {
                if i < c0 {
                    assert(m.records[i].id < m.records[c0].id);
                } else if i > c0 {
                    assert(m.records[c0].id < m.records[i].id);
                }
            }
        }
        assert(s2 =~= m.records);
    }
}

/// At every moment each record is in exactly one of the completed and the
/// pending listings, and together they hold every record and nothing else;
/// likewise for ids.
pub proof fn lemma_done_undone_partition(m: CollectionModel, done: Seq<ItemModel>)
    requires
        model_wf(m),
        done_list(m.records, done),
    ensures
        forall|r: ItemModel|
            #[trigger] m.records.contains(r) ==> (done.contains(r) != undone_spec(m.records).contains(r)),
        forall|r: ItemModel|
            (done.contains(r) || undone_spec(m.records).contains(r)) ==> #[trigger] m.records.contains(r),
        forall|id: u64|
            #[trigger] has_id(m.records, id) <==> (has_id(done, id) || has_id(undone_spec(m.records), id)),
        forall|id: u64| !(#[trigger] has_id(done, id) && has_id(undone_spec(m.records), id)),
{
    let u = undone_spec(m.records);
    assert forall|r: ItemModel| #[trigger] m.records.contains(r) ==> (done.contains(r) != u.contains(r)) by {
        lemma_filter_member(m.records, pending(), r);
    }
    assert forall|r: ItemModel| (done.contains(r) || u.contains(r)) implies #[trigger] m.records.contains(r) by {
        lemma_filter_member(m.records, pending(), r);
    }
    assert forall|id: u64| #[trigger] has_id(m.records, id) <==> (has_id(done, id) || has_id(u, id)) by {
        if has_id(m.records, id) {
            let k = choose|k: int| 0 <= k < m.records.len() && (#[trigger] m.records[k]).id == id;
            let r = m.records[k];
            assert(m.records.contains(r));
            lemma_filter_member(m.records, pending(), r);
            if done.contains(r) {
                let j = choose|j: int| 0 <= j < done.len() && done[j] == r;
                assert(done[j].id == id);
            } else {
                let j = choose|j: int| 0 <= j < u.len() && u[j] == r;
                assert(u[j].id == id);
            }
        }
        if has_id(done, id) {
            let j = choose|j: int| 0 <= j < done.len() && (#[trigger] done[j]).id == id;
            assert(done.contains(done[j]));
            let k = choose|k: int| 0 <= k < m.records.len() && m.records[k] == done[j];
            assert(m.records[k].id == id);
        }
        if has_id(u, id) {
            let j = choose|j: int| 0 <= j < u.len() && (#[trigger] u[j]).id == id;
            assert(u.contains(u[j]));
            lemma_filter_member(m.records, pending(), u[j]);
            let k = choose|k: int| 0 <= k < m.records.len() && m.records[k] == u[j];
            assert(m.records[k].id == id);
        }
    }
    assert forall|id: u64| !(#[trigger] has_id(done, id) && has_id(u, id)) by {
        if has_id(done, id) && has_id(u, id) {
            let j = choose|j: int| 0 <= j < done.len() && (#[trigger] done[j]).id == id;
            let l = choose|l: int| 0 <= l < u.len() && (#[trigger] u[l]).id == id;
            assert(done.contains(done[j]));
            assert(u.contains(u[l]));
            lemma_filter_member(m.records, pending(), u[l]);
            let a = choose|a: int| 0 <= a < m.records.len() && m.records[a] == done[j];
            let b = choose|b: int| 0 <= b < m.records.len() && m.records[b] == u[l];
            if a < b {
                assert(m.records[a].id < m.records[b].id);
            } else if b < a {
                assert(m.records[b].id < m.records[a].id);
            }
        }
    }
}

/// A search gives exactly the records that have a text field holding the
/// searched text.
pub proof fn lemma_find_exact(m: CollectionModel, needle: Seq<char>)
    ensures
        forall|r: ItemModel|
            #[trigger] find_spec(m.records, needle).contains(r) <==> (m.records.contains(r)
                && text_matches(r.fields, needle)),
{
    assert forall|r: ItemModel|
        #[trigger] find_spec(m.records, needle).contains(r) <==> (m.records.contains(r)
            && text_matches(r.fields, needle)) by {
        lemma_filter_member(m.records, found_by(needle), r);
    }
}

/// A search in a collection without text columns finds nothing.
pub proof fn lemma_find_without_text_columns(m: CollectionModel, needle: Seq<char>)
    requires
        model_wf(m),
        forall|i: int| 0 <= i < m.schema.len() ==> (#[trigger] m.schema[i]).field_type != FieldType::Text,
    ensures
        find_spec(m.records, needle).len() == 0,
{
    assert forall|k: int| 0 <= k < m.records.len() implies !text_matches(
        (#[trigger] m.records[k]).fields,
        needle,
    ) by {
        let fs = m.records[k].fields;
        assert(in_schema_order(m.schema, fs));
        assert forall|i: int| 0 <= i < fs.len() implies !((#[trigger] fs[i]).value is Text) by {
            assert(m.schema[i].field_type != FieldType::Text);
        }
    }
    m.records.lemma_all_neg_filter_empty(found_by(needle));
}

/// Deleting a record removes exactly the record with that id and keeps the
/// invariant; deleting an absent id changes nothing.
pub proof fn lemma_delete_removes(m: CollectionModel, id: u64)
    requires
        model_wf(m),
    ensures
        !has_id(delete_spec(m.records, id), id),
        forall|r: ItemModel|
            #[trigger] delete_spec(m.records, id).contains(r) <==> (m.records.contains(r) && r.id != id),
{
    assert forall|r: ItemModel|
        #[trigger] delete_spec(m.records, id).contains(r) <==> (m.records.contains(r) && r.id != id) by {
        lemma_filter_member(m.records, crate::collection::other_id(id), r);
    }
    let d = delete_spec(m.records, id);
    if has_id(d, id) {
        let k = choose|k: int| 0 <= k < d.len() && (#[trigger] d[k]).id == id;
        assert(d.contains(d[k]));
    }
}

} // verus!
