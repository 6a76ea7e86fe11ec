//! What has to be made durable between two states of a ledger.

use crate::sandbox::subid::allocator::same_incarnation;
use crate::sandbox::subid::ledger::{LeaseRecord, RecordView};
use crate::sandbox::subid::order;
use crate::text;
use vstd::prelude::*;

verus! {

/// The records to write and the records to remove.
#[derive(Debug)]
pub struct Changes {
    pub write: Vec<LeaseRecord>,
    pub remove: Vec<LeaseRecord>,
}

/// Among the first `n` records of `after`, those that `before` does not hold as
/// they are.
pub open spec fn to_write(before: Seq<RecordView>, after: Seq<RecordView>, n: int) -> Seq<
    RecordView,
>
    decreases n,
{
    if n <= 0 {
        seq![]
    } else {
        let rest = to_write(before, after, n - 1);
        if order::find(before, after[n - 1].lease_id) == Some(after[n - 1]) {
            rest
        } else {
            rest.push(after[n - 1])
        }
    }
}

/// Among the first `n` records of `before`, those whose lease `after` no longer
/// holds.
pub open spec fn to_remove(before: Seq<RecordView>, after: Seq<RecordView>, n: int) -> Seq<
    RecordView,
>
    decreases n,
{
    if n <= 0 {
        seq![]
    } else {
        let rest = to_remove(before, after, n - 1);
        if order::find(after, before[n - 1].lease_id) is Some {
            rest
        } else {
            rest.push(before[n - 1])
        }
    }
}

/// A ledger with records written, one after the other.
pub open spec fn all_written(records: Seq<RecordView>, list: Seq<RecordView>) -> Seq<RecordView>
    decreases list.len(),
{
    if list.len() == 0 {
        records
    } else {
        order::written(all_written(records, list.drop_last()), list.last())
    }
}

/// A ledger with leases removed, one after the other.
pub open spec fn all_removed(records: Seq<RecordView>, list: Seq<RecordView>) -> Seq<RecordView>
    decreases list.len(),
{
    if list.len() == 0 {
        records
    } else {
        order::removed(all_removed(records, list.drop_last()), list.last().lease_id)
    }
}

/// Whether two records are the same.
pub fn same_record(a: &LeaseRecord, b: &LeaseRecord) -> (r: bool)
    ensures
        r == (a@ == b@),
{
    if !same_incarnation(a, b) || a.state != b.state {
        return false;
    }
    match (&a.quarantine_reason, &b.quarantine_reason) {
        (Some(x), Some(y)) => text::same_text(x.as_str(), y.as_str()),
        (None, None) => true,
        _ => false,
    }
}

/// What leads from one state of a ledger to another.
pub fn changes(before: &Vec<LeaseRecord>, after: &Vec<LeaseRecord>) -> (r: Changes)
    ensures
        order::views(r.write@) == to_write(
            order::views(before@),
            order::views(after@),
            after@.len() as int,
        ),
        order::views(r.remove@) == to_remove(
            order::views(before@),
            order::views(after@),
            before@.len() as int,
        ),
{
    let ghost old_list = order::views(before@);
    let ghost new_list = order::views(after@);
    let mut write: Vec<LeaseRecord> = Vec::new();
    let mut i: usize = 0;
    assert(order::views(write@) =~= Seq::<RecordView>::empty());
    while i < after.len()
        invariant
            i <= after@.len(),
            old_list == order::views(before@),
            new_list == order::views(after@),
            order::views(write@) == to_write(old_list, new_list, i as int),
        decreases after@.len() - i,
    {
        let at = order::position_of(before, after[i].lease_id.as_str());
        assert(new_list[i as int] == after@[i as int]@);
        let mut held = false;
        if at < before.len() {
            assert(old_list[at as int] == before@[at as int]@);
            held = same_record(&before[at], &after[i]);
        }
        if !held {
            let copy = after[i].clone();
            assert(order::views(write@.push(copy)) =~= order::views(write@).push(copy@));
            write.push(copy);
        }
        i = i + 1;
    }
    let mut remove: Vec<LeaseRecord> = Vec::new();
    let mut k: usize = 0;
    assert(order::views(remove@) =~= Seq::<RecordView>::empty());
    while k < before.len()
        invariant
            k <= before@.len(),
            old_list == order::views(before@),
            new_list == order::views(after@),
            order::views(remove@) == to_remove(old_list, new_list, k as int),
        decreases before@.len() - k,
    {
        let at = order::position_of(after, before[k].lease_id.as_str());
        assert(old_list[k as int] == before@[k as int]@);
        if at >= after.len() {
            let copy = before[k].clone();
            assert(order::views(remove@.push(copy)) =~= order::views(remove@).push(copy@));
            remove.push(copy);
        }
        k = k + 1;
    }
    Changes { write, remove }
}

proof fn lemma_written(before: Seq<RecordView>, after: Seq<RecordView>, n: int, lease_id: Seq<char>)
    requires
        order::is_ordered(before),
        order::is_ordered(after),
        0 <= n <= after.len(),
    ensures
        order::is_ordered(all_written(before, to_write(before, after, n))),
        order::find(all_written(before, to_write(before, after, n)), lease_id) == (
        if order::position(after, lease_id, 0) < n {
            order::find(after, lease_id)
        } else {
            order::find(before, lease_id)
        }),
    decreases n,
{
    order::lemma_position(after, lease_id, 0);
    if n > 0 {
        let record = after[n - 1];
        let rest = to_write(before, after, n - 1);
        lemma_written(before, after, n - 1, lease_id);
        assert(after.contains(record));
        order::lemma_find_member(after, record);
        order::lemma_position(after, record.lease_id, 0);
        let at = order::position(after, record.lease_id, 0);
        if at != n - 1 {
            order::ordered_leases_are_distinct(after, at, n - 1);
        }
        if order::find(before, record.lease_id) != Some(record) {
            assert(rest.push(record).drop_last() =~= rest);
            order::writing_keeps_the_order(all_written(before, rest), record);
            order::writing_changes_one_lease(all_written(before, rest), record, lease_id);
        }
    }
}

proof fn lemma_removed(
    before: Seq<RecordView>,
    after: Seq<RecordView>,
    records: Seq<RecordView>,
    n: int,
    lease_id: Seq<char>,
)
    requires
        order::is_ordered(before),
        order::is_ordered(records),
        0 <= n <= before.len(),
    ensures
        order::is_ordered(all_removed(records, to_remove(before, after, n))),
        order::find(all_removed(records, to_remove(before, after, n)), lease_id) == (
        if order::position(before, lease_id, 0) < n && order::find(after, lease_id) is None {
            None
        } else {
            order::find(records, lease_id)
        }),
    decreases n,
{
    order::lemma_position(before, lease_id, 0);
    if n > 0 {
        let record = before[n - 1];
        let rest = to_remove(before, after, n - 1);
        lemma_removed(before, after, records, n - 1, lease_id);
        order::lemma_position(before, record.lease_id, 0);
        let at = order::position(before, record.lease_id, 0);
        if at != n - 1 {
            order::ordered_leases_are_distinct(before, at, n - 1);
        }
        if order::find(after, record.lease_id) is None {
            assert(rest.push(record).drop_last() =~= rest);
            order::removing_keeps_the_order(all_removed(records, rest), record.lease_id);
            order::removing_changes_one_lease(
                all_removed(records, rest),
                record.lease_id,
                lease_id,
            );
        }
    }
}

/// Writing and removing what changed turns one state of a ledger into the
/// other: afterwards every lease has the record it is to have, or none.
pub proof fn changes_lead_to_the_new_ledger(
    before: Seq<RecordView>,
    after: Seq<RecordView>,
    lease_id: Seq<char>,
)
    requires
        order::is_ordered(before),
        order::is_ordered(after),
    ensures
        order::find(
            all_removed(
                all_written(before, to_write(before, after, after.len() as int)),
                to_remove(before, after, before.len() as int),
            ),
            lease_id,
        ) == order::find(after, lease_id),
{
    let written = all_written(before, to_write(before, after, after.len() as int));
    lemma_written(before, after, after.len() as int, lease_id);
    lemma_removed(before, after, written, before.len() as int, lease_id);
    order::lemma_position(after, lease_id, 0);
    order::lemma_position(before, lease_id, 0);
}

proof fn lemma_nothing_to_write(records: Seq<RecordView>, n: int)
    requires
        order::is_ordered(records),
        0 <= n <= records.len(),
    ensures
        to_write(records, records, n).len() == 0,
        to_remove(records, records, n).len() == 0,
    decreases n,
{
    if n > 0 {
        lemma_nothing_to_write(records, n - 1);
        assert(records.contains(records[n - 1]));
        order::lemma_find_member(records, records[n - 1]);
    }
}

/// An unchanged ledger has nothing to write and nothing to remove.
pub proof fn unchanged_ledgers_stay_untouched(records: Seq<RecordView>)
    requires
        order::is_ordered(records),
    ensures
        to_write(records, records, records.len() as int).len() == 0,
        to_remove(records, records, records.len() as int).len() == 0,
{
    lemma_nothing_to_write(records, records.len() as int);
}

/// Exactly the records that are new or different are written, and exactly the
/// records whose lease is gone are removed.
pub proof fn only_differences_are_written(
    before: Seq<RecordView>,
    after: Seq<RecordView>,
    record: RecordView,
)
    ensures
        to_write(before, after, after.len() as int).contains(record) <==> after.contains(record)
            && order::find(before, record.lease_id) != Some(record),
        to_remove(before, after, before.len() as int).contains(record) <==> before.contains(record)
            && order::find(after, record.lease_id) is None,
{
    lemma_to_write(before, after, after.len() as int, record);
    lemma_to_remove(before, after, before.len() as int, record);
    assert(after.take(after.len() as int) =~= after);
    assert(before.take(before.len() as int) =~= before);
}

proof fn lemma_to_write(
    before: Seq<RecordView>,
    after: Seq<RecordView>,
    n: int,
    record: RecordView,
)
    requires
        0 <= n <= after.len(),
    ensures
        to_write(before, after, n).contains(record) <==> after.take(n).contains(record)
            && order::find(before, record.lease_id) != Some(record),
    decreases n,
{
    if n > 0 {
        lemma_to_write(before, after, n - 1, record);
        let rest = to_write(before, after, n - 1);
        let last = after[n - 1];
        lemma_push_contains(rest, last, record);
        lemma_push_contains(after.take(n - 1), last, record);
        assert(after.take(n - 1).push(last) =~= after.take(n));
    }
}

proof fn lemma_to_remove(
    before: Seq<RecordView>,
    after: Seq<RecordView>,
    n: int,
    record: RecordView,
)
    requires
        0 <= n <= before.len(),
    ensures
        to_remove(before, after, n).contains(record) <==> before.take(n).contains(record)
            && order::find(after, record.lease_id) is None,
    decreases n,
{
    if n > 0 {
        lemma_to_remove(before, after, n - 1, record);
        let rest = to_remove(before, after, n - 1);
        let last = before[n - 1];
        lemma_push_contains(rest, last, record);
        lemma_push_contains(before.take(n - 1), last, record);
        assert(before.take(n - 1).push(last) =~= before.take(n));
    }
}

proof fn lemma_push_contains(list: Seq<RecordView>, last: RecordView, record: RecordView)
    ensures
        list.push(last).contains(record) <==> list.contains(record) || record == last,
{
    let longer = list.push(last);
    assert(longer[list.len() as int] == last);
    if list.contains(record) {
        let k = choose|k: int| 0 <= k < list.len() && list[k] == record;
        assert(longer[k] == record);
    }
    if longer.contains(record) {
        let k = choose|k: int| 0 <= k < longer.len() && longer[k] == record;
        if k < list.len() {
            assert(list[k] == record);
        }
    }
}

} // verus!
