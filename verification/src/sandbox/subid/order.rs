//! The order of a ledger: records by lease id.

use crate::sandbox::subid::ledger::{LeaseRecord, RecordView};
use crate::text;
use vstd::prelude::*;

verus! {

/// The contents of a list of records.
pub open spec fn views(records: Seq<LeaseRecord>) -> Seq<RecordView> {
    records.map_values(|record: LeaseRecord| record@)
}

/// Lease ids increase strictly along the list.
pub open spec fn is_ordered(records: Seq<RecordView>) -> bool {
    forall|i: int, j: int|
        0 <= i < j < records.len() ==> text::before(
            (#[trigger] records[i]).lease_id,
            (#[trigger] records[j]).lease_id,
        )
}

/// The position of a lease in the list, or the length.
pub open spec fn position(records: Seq<RecordView>, lease_id: Seq<char>, from: int) -> int
    decreases records.len() - from,
{
    if from < 0 || from >= records.len() {
        records.len() as int
    } else if records[from].lease_id == lease_id {
        from
    } else {
        position(records, lease_id, from + 1)
    }
}

/// The record of a lease, if there is one.
pub open spec fn find(records: Seq<RecordView>, lease_id: Seq<char>) -> Option<RecordView> {
    let at = position(records, lease_id, 0);
    if at < records.len() {
        Some(records[at])
    } else {
        None
    }
}

/// A record inserted behind every record that does not come after it.
pub open spec fn inserted(records: Seq<RecordView>, record: RecordView) -> Seq<RecordView>
    decreases records.len(),
{
    if records.len() > 0 && text::before(record.lease_id, records.last().lease_id) {
        inserted(records.drop_last(), record).push(records.last())
    } else {
        records.push(record)
    }
}

/// The list sorted by lease id.
pub open spec fn sorted(records: Seq<RecordView>) -> Seq<RecordView>
    decreases records.len(),
{
    if records.len() == 0 {
        records
    } else {
        inserted(sorted(records.drop_last()), records.last())
    }
}

/// The list after a record is written: it replaces the record of its lease, or
/// is inserted in order.
pub open spec fn written(records: Seq<RecordView>, record: RecordView) -> Seq<RecordView> {
    let at = position(records, record.lease_id, 0);
    if at < records.len() {
        records.update(at, record)
    } else {
        inserted(records, record)
    }
}

/// The list after the record of a lease is removed.
pub open spec fn removed(records: Seq<RecordView>, lease_id: Seq<char>) -> Seq<RecordView> {
    let at = position(records, lease_id, 0);
    if at < records.len() {
        records.remove(at)
    } else {
        records
    }
}

/// The position of a lease is inside the list exactly when the list has it.
pub proof fn lemma_position(records: Seq<RecordView>, lease_id: Seq<char>, from: int)
    requires
        0 <= from <= records.len(),
    ensures
        from <= position(records, lease_id, from) <= records.len(),
        position(records, lease_id, from) < records.len() ==> records[position(
            records,
            lease_id,
            from,
        )].lease_id == lease_id,
        forall|k: int|
            from <= k < position(records, lease_id, from) ==> (#[trigger] records[k]).lease_id
                != lease_id,
    decreases records.len() - from,
{
    if from < records.len() && records[from].lease_id != lease_id {
        lemma_position(records, lease_id, from + 1);
    }
}

proof fn lemma_inserted_at(records: Seq<RecordView>, record: RecordView, p: int)
    requires
        0 <= p <= records.len(),
        forall|k: int|
            p <= k < records.len() ==> text::before(record.lease_id, (#[trigger] records[k]).lease_id),
        p > 0 ==> !text::before(record.lease_id, records[p - 1].lease_id),
    ensures
        inserted(records, record) == records.insert(p, record),
    decreases records.len(),
{
    if p < records.len() {
        assert(text::before(record.lease_id, records[records.len() - 1].lease_id));
        lemma_inserted_at(records.drop_last(), record, p);
        assert(records.drop_last().insert(p, record).push(records.last()) =~= records.insert(
            p,
            record,
        ));
    } else {
        assert(records.push(record) =~= records.insert(p, record));
    }
}

/// Inserting adds exactly the record.
pub proof fn lemma_inserted(records: Seq<RecordView>, record: RecordView)
    ensures
        inserted(records, record).len() == records.len() + 1,
        inserted(records, record).contains(record),
        forall|r: RecordView|
            #[trigger] inserted(records, record).contains(r) <==> r == record || records.contains(
                r,
            ),
        inserted(records, record).to_multiset() == records.to_multiset().insert(record),
    decreases records.len(),
{
    broadcast use vstd::seq_lib::group_to_multiset_ensures;

    let result = inserted(records, record);
    if records.len() > 0 && text::before(record.lease_id, records.last().lease_id) {
        let init = records.drop_last();
        lemma_inserted(init, record);
        assert(records =~= init.push(records.last()));
        let inner = inserted(init, record);
        assert forall|r: RecordView| #[trigger] result.contains(r) <==> r == record
            || records.contains(r) by {
            if result.contains(r) {
                let i = choose|i: int| 0 <= i < result.len() && result[i] == r;
                if i < inner.len() {
                    assert(inner[i] == r);
                    assert(inner.contains(r));
                    if init.contains(r) {
                        let k = choose|k: int| 0 <= k < init.len() && init[k] == r;
                        assert(records[k] == r);
                    }
                } else {
                    assert(records[records.len() - 1] == r);
                }
            }
            if r == record {
                assert(inner.contains(r));
                let i = choose|i: int| 0 <= i < inner.len() && inner[i] == r;
                assert(result[i] == r);
            }
            if records.contains(r) {
                let k = choose|k: int| 0 <= k < records.len() && records[k] == r;
                if k < init.len() {
                    assert(init[k] == r);
                    assert(inner.contains(r));
                    let i = choose|i: int| 0 <= i < inner.len() && inner[i] == r;
                    assert(result[i] == r);
                } else {
                    assert(result[result.len() - 1] == r);
                }
            }
        }
        assert(result.to_multiset() =~= records.to_multiset().insert(record));
    } else {
        assert(result[records.len() as int] == record);
        assert forall|r: RecordView| #[trigger] result.contains(r) <==> r == record
            || records.contains(r) by {
            if records.contains(r) {
                let k = choose|k: int| 0 <= k < records.len() && records[k] == r;
                assert(result[k] == r);
            }
        }
    }
}

proof fn lemma_inserted_ordered(records: Seq<RecordView>, record: RecordView)
    requires
        is_ordered(records),
        forall|k: int|
            0 <= k < records.len() ==> (#[trigger] records[k]).lease_id != record.lease_id,
    ensures
        is_ordered(inserted(records, record)),
    decreases records.len(),
{
    let result = inserted(records, record);
    if records.len() > 0 && text::before(record.lease_id, records.last().lease_id) {
        let init = records.drop_last();
        let last = records.last();
        lemma_inserted_ordered(init, record);
        lemma_inserted(init, record);
        let inner = inserted(init, record);
        assert forall|i: int, j: int| 0 <= i < j < result.len() implies text::before(
            (#[trigger] result[i]).lease_id,
            (#[trigger] result[j]).lease_id,
        ) by {
            if j == inner.len() {
                assert(inner.contains(inner[i]));
                assert(result[i] == inner[i]);
                if inner[i] != record {
                    let k = choose|k: int| 0 <= k < init.len() && init[k] == inner[i];
                    assert(records[k] == inner[i]);
                    assert(text::before(records[k].lease_id, records[records.len() - 1].lease_id));
                }
            } else {
                assert(text::before(inner[i].lease_id, inner[j].lease_id));
            }
        }
    } else {
        assert forall|i: int, j: int| 0 <= i < j < result.len() implies text::before(
            (#[trigger] result[i]).lease_id,
            (#[trigger] result[j]).lease_id,
        ) by {
            if j == records.len() {
                let last = records.last();
                text::lemma_before(record.lease_id, last.lease_id, record.lease_id);
                assert(records[records.len() - 1].lease_id != record.lease_id);
                if i < records.len() - 1 {
                    assert(text::before(records[i].lease_id, records[records.len() - 1].lease_id));
                    text::lemma_before(records[i].lease_id, last.lease_id, record.lease_id);
                }
            }
        }
    }
}

/// Writing a record keeps the list ordered.
pub proof fn writing_keeps_the_order(records: Seq<RecordView>, record: RecordView)
    requires
        is_ordered(records),
    ensures
        is_ordered(written(records, record)),
{
    lemma_position(records, record.lease_id, 0);
    if position(records, record.lease_id, 0) >= records.len() {
        lemma_inserted_ordered(records, record);
    }
}

/// Removing a record keeps the list ordered.
pub proof fn removing_keeps_the_order(records: Seq<RecordView>, lease_id: Seq<char>)
    requires
        is_ordered(records),
    ensures
        is_ordered(removed(records, lease_id)),
{
    lemma_position(records, lease_id, 0);
}

/// Distinct positions of an ordered list hold distinct leases.
pub proof fn ordered_leases_are_distinct(records: Seq<RecordView>, i: int, j: int)
    requires
        is_ordered(records),
        0 <= i < records.len(),
        0 <= j < records.len(),
        records[i].lease_id == records[j].lease_id,
    ensures
        i == j,
{
    text::lemma_before(records[i].lease_id, records[j].lease_id, records[i].lease_id);
    if i < j {
        assert(text::before(records[i].lease_id, records[j].lease_id));
    } else if j < i {
        assert(text::before(records[j].lease_id, records[i].lease_id));
    }
}

/// After a write, the lease has the written record and every other lease has
/// the record it had.
pub proof fn writing_changes_one_lease(
    records: Seq<RecordView>,
    record: RecordView,
    lease_id: Seq<char>,
)
    requires
        is_ordered(records),
    ensures
        find(written(records, record), record.lease_id) == Some(record),
        lease_id != record.lease_id ==> find(written(records, record), lease_id) == find(
            records,
            lease_id,
        ),
{
    let after = written(records, record);
    writing_keeps_the_order(records, record);
    lemma_position(records, record.lease_id, 0);
    lemma_inserted(records, record);
    assert(after.contains(record)) by {
        let at = position(records, record.lease_id, 0);
        if at < records.len() {
            assert(after[at] == record);
        }
    }
    lemma_find_member(after, record);
    if lease_id != record.lease_id {
        lemma_position(records, lease_id, 0);
        lemma_position(after, lease_id, 0);
        let at = position(records, lease_id, 0);
        if at < records.len() {
            let other = records[at];
            assert(after.contains(other)) by {
                let p = position(records, record.lease_id, 0);
                if p < records.len() {
                    assert(after[at] == other);
                } else {
                    assert(records.contains(other));
                }
            }
            lemma_find_member(after, other);
        } else {
            let q = position(after, lease_id, 0);
            if q < after.len() {
                let p = position(records, record.lease_id, 0);
                assert(after.contains(after[q]));
                if p < records.len() {
                    assert(records[q].lease_id == lease_id);
                } else {
                    assert(records.contains(after[q]));
                    let k = choose|k: int| 0 <= k < records.len() && records[k] == after[q];
                    assert(records[k].lease_id == lease_id);
                }
            }
        }
    }
}

/// In an ordered list, every member is found under its lease.
pub proof fn lemma_find_member(records: Seq<RecordView>, record: RecordView)
    requires
        is_ordered(records),
        records.contains(record),
    ensures
        find(records, record.lease_id) == Some(record),
{
    let i = choose|i: int| 0 <= i < records.len() && records[i] == record;
    lemma_position(records, record.lease_id, 0);
    let at = position(records, record.lease_id, 0);
    assert(at < records.len());
    ordered_leases_are_distinct(records, i, at);
}

/// After a removal, the lease is gone and every other lease has the record it
/// had.
pub proof fn removing_changes_one_lease(
    records: Seq<RecordView>,
    lease_id: Seq<char>,
    other: Seq<char>,
)
    requires
        is_ordered(records),
    ensures
        find(removed(records, lease_id), lease_id) is None,
        other != lease_id ==> find(removed(records, lease_id), other) == find(records, other),
{
    let after = removed(records, lease_id);
    removing_keeps_the_order(records, lease_id);
    lemma_position(records, lease_id, 0);
    let at = position(records, lease_id, 0);
    lemma_position(after, lease_id, 0);
    let gone = position(after, lease_id, 0);
    if gone < after.len() && at < records.len() {
        let original = if gone < at { gone } else { gone + 1 };
        assert(records[original] == after[gone]);
        ordered_leases_are_distinct(records, original, at);
    }
    if other != lease_id {
        lemma_position(records, other, 0);
        lemma_position(after, other, 0);
        let was = position(records, other, 0);
        let is = position(after, other, 0);
        if was < records.len() {
            if at < records.len() {
                let now = if was < at { was } else { was - 1 };
                assert(after[now] == records[was]);
            }
            assert(after.contains(records[was]));
            lemma_find_member(after, records[was]);
        } else if is < after.len() && at < records.len() {
            let original = if is < at { is } else { is + 1 };
            assert(records[original] == after[is]);
        }
    }
}

/// The position of a lease in a list of records, or the length.
pub fn position_of(records: &Vec<LeaseRecord>, lease_id: &str) -> (r: usize)
    ensures
        r == position(views(records@), lease_id@, 0),
        r <= records@.len(),
        r < records@.len() ==> records@[r as int]@.lease_id == lease_id@,
{
    let mut i: usize = 0;
    while i < records.len()
        invariant
            i <= records@.len(),
            position(views(records@), lease_id@, 0) == position(
                views(records@),
                lease_id@,
                i as int,
            ),
        decreases records@.len() - i,
    {
        assert(views(records@)[i as int] == records@[i as int]@);
        if text::same_text(records[i].lease_id.as_str(), lease_id) {
            return i;
        }
        i = i + 1;
    }
    i
}

/// Insert a record in order.
pub fn insert_record(records: &mut Vec<LeaseRecord>, record: LeaseRecord)
    ensures
        views(final(records)@) == inserted(views(old(records)@), record@),
{
    let ghost list = views(records@);
    let mut p: usize = records.len();
    while p > 0 && text::is_before(record.lease_id.as_str(), records[p - 1].lease_id.as_str())
        invariant
            p <= records@.len(),
            list == views(records@),
            forall|k: int|
                p <= k < list.len() ==> text::before(record@.lease_id, (#[trigger] list[k]).lease_id),
        decreases p,
    {
        assert(list[p - 1] == records@[p - 1]@);
        p = p - 1;
    }
    proof {
        if p > 0 {
            assert(list[p - 1] == records@[p - 1]@);
        }
        lemma_inserted_at(list, record@, p as int);
        assert(views(records@.insert(p as int, record)) =~= list.insert(p as int, record@));
    }
    records.insert(p, record);
}

/// Write a record.
pub fn write_record(records: &mut Vec<LeaseRecord>, record: LeaseRecord)
    ensures
        views(final(records)@) == written(views(old(records)@), record@),
{
    let at = position_of(records, record.lease_id.as_str());
    if at < records.len() {
        proof {
            assert(views(records@.update(at as int, record)) =~= views(records@).update(
                at as int,
                record@,
            ));
        }
        records[at] = record;
    } else {
        insert_record(records, record);
    }
}

/// Remove the record of a lease.
pub fn remove_record(records: &mut Vec<LeaseRecord>, lease_id: &str)
    ensures
        views(final(records)@) == removed(views(old(records)@), lease_id@),
{
    let at = position_of(records, lease_id);
    if at < records.len() {
        proof {
            assert(views(records@.remove(at as int)) =~= views(records@).remove(at as int));
        }
        records.remove(at);
    }
}

/// Sort records by lease id.
pub fn sort_records(records: Vec<LeaseRecord>) -> (r: Vec<LeaseRecord>)
    ensures
        views(r@) == sorted(views(records@)),
{
    let ghost list = views(records@);
    let mut out: Vec<LeaseRecord> = Vec::new();
    let mut i: usize = 0;
    assert(views(out@) =~= sorted(list.take(0)));
    while i < records.len()
        invariant
            i <= records@.len(),
            list == views(records@),
            views(out@) == sorted(list.take(i as int)),
        decreases records@.len() - i,
    {
        proof {
            assert(list.take(i + 1).drop_last() =~= list.take(i as int));
            assert(list.take(i + 1).last() == records@[i as int]@);
        }
        insert_record(&mut out, records[i].clone());
        i = i + 1;
    }
    assert(list.take(list.len() as int) =~= list);
    out
}

/// Sorting keeps exactly the records it is given.
pub proof fn sorting_keeps_the_records(records: Seq<RecordView>)
    ensures
        sorted(records).to_multiset() == records.to_multiset(),
        forall|r: RecordView| #[trigger] sorted(records).contains(r) <==> records.contains(r),
    decreases records.len(),
{
    broadcast use vstd::seq_lib::group_to_multiset_ensures;

    if records.len() > 0 {
        let init = records.drop_last();
        sorting_keeps_the_records(init);
        lemma_inserted(sorted(init), records.last());
        assert(records =~= init.push(records.last()));
        assert(sorted(records).to_multiset() =~= records.to_multiset());
        assert forall|r: RecordView| #[trigger] sorted(records).contains(r) <==> records.contains(
            r,
        ) by {
            if records.contains(r) {
                let k = choose|k: int| 0 <= k < records.len() && records[k] == r;
                if k < init.len() {
                    assert(init[k] == r);
                }
            }
            if sorted(init).contains(r) {
                let k = choose|k: int| 0 <= k < init.len() && init[k] == r;
                assert(records[k] == r);
            }
            if r == records.last() {
                assert(records[records.len() - 1] == r);
            }
        }
    }
}

/// Sorting records of distinct leases orders them.
pub proof fn sorting_orders_distinct_leases(records: Seq<RecordView>)
    requires
        forall|i: int, j: int|
            0 <= i < j < records.len() ==> (#[trigger] records[i]).lease_id != (
            #[trigger] records[j]).lease_id,
    ensures
        is_ordered(sorted(records)),
    decreases records.len(),
{
    if records.len() > 0 {
        let init = records.drop_last();
        sorting_orders_distinct_leases(init);
        sorting_keeps_the_records(init);
        let list = sorted(init);
        assert forall|k: int| 0 <= k < list.len() implies (#[trigger] list[k]).lease_id
            != records.last().lease_id by {
            assert(list.contains(list[k]));
            let i = choose|i: int| 0 <= i < init.len() && init[i] == list[k];
            assert(records[i].lease_id != records[records.len() - 1].lease_id);
        }
        lemma_inserted_ordered(list, records.last());
    }
}

} // verus!
