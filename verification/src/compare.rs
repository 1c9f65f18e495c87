//! Comparing two lists of records by their identifiers.

use vstd::prelude::*;
use std::collections::BTreeSet;
use crate::record::{RecordView, TransactionRecord};

verus! {

/// The identifiers of the records of `a` that `b` does not hold, field for
/// field.
pub open spec fn ids_missing_from(a: Seq<RecordView>, b: Seq<RecordView>) -> Set<u64> {
    Set::new(|id: u64| exists|i: int| 0 <= i < a.len() && (#[trigger] a[i]).tx_id == id && !b.contains(a[i]))
}

/// Whether two records agree in every field.
pub fn same_record(a: &TransactionRecord, b: &TransactionRecord) -> (res: bool)
    ensures
        res == (a@ == b@),
{
    a.tx_id == b.tx_id && a.tx_type == b.tx_type && a.from_user_id == b.from_user_id
        && a.to_user_id == b.to_user_id && a.amount == b.amount && a.timestamp == b.timestamp
        && a.status == b.status && a.description == b.description
}

/// Whether `list` holds a record that agrees with `r` in every field.
fn holds_record(list: &Vec<TransactionRecord>, r: &TransactionRecord) -> (res: bool)
    ensures
        res == list@.map_values(|x: TransactionRecord| x@).contains(r@),
{
    let ghost views = list@.map_values(|x: TransactionRecord| x@);
    let n = list.len();
    let mut i: usize = 0;
    while i < n
        invariant
            n == list@.len(),
            i <= n,
            views == list@.map_values(|x: TransactionRecord| x@),
            forall|j: int| 0 <= j < i ==> views[j] != r@,
        decreases n - i,
    {
        if same_record(&list[i], r) {
            assert(views[i as int] == r@);
            return true;
        }
        i = i + 1;
    }
    false
}

/// The identifiers of the records of `a` that `b` does not hold.
fn missing_ids(a: &Vec<TransactionRecord>, b: &Vec<TransactionRecord>) -> (res: BTreeSet<u64>)
    ensures
        res@ == ids_missing_from(
            a@.map_values(|x: TransactionRecord| x@),
            b@.map_values(|x: TransactionRecord| x@),
        ),
{
    let ghost av = a@.map_values(|x: TransactionRecord| x@);
    let ghost bv = b@.map_values(|x: TransactionRecord| x@);
    let mut ids: BTreeSet<u64> = BTreeSet::new();
    let n = a.len();
    let mut i: usize = 0;
    while i < n
        invariant
            n == a@.len(),
            i <= n,
            av == a@.map_values(|x: TransactionRecord| x@),
            bv == b@.map_values(|x: TransactionRecord| x@),
            ids@ == ids_missing_from(av.subrange(0, i as int), bv),
        decreases n - i,
    {
        let ghost prev = av.subrange(0, i as int);
        let ghost next = av.subrange(0, i + 1);
        if !holds_record(b, &a[i]) {
            ids.insert(a[i].tx_id);
            proof {
                assert forall|id: u64| #[trigger] ids@.contains(id) == ids_missing_from(next, bv).contains(id) by {
                    if ids_missing_from(prev, bv).contains(id) {
                        let j = choose|j: int| 0 <= j < prev.len() && (#[trigger] prev[j]).tx_id == id && !bv.contains(prev[j]);
                        assert(next[j] == prev[j]);
                    }
                    if id == a@[i as int].tx_id {
                        assert(next[i as int] == av[i as int]);
                    }
                    if ids_missing_from(next, bv).contains(id) && id != a@[i as int].tx_id {
                        let j = choose|j: int| 0 <= j < next.len() && (#[trigger] next[j]).tx_id == id && !bv.contains(next[j]);
                        assert(prev[j] == next[j]);
                    }
                }
                assert(ids@ =~= ids_missing_from(next, bv));
            }
        } else {
            proof {
                assert forall|id: u64| #[trigger] ids@.contains(id) == ids_missing_from(next, bv).contains(id) by {
                    if ids_missing_from(prev, bv).contains(id) {
                        let j = choose|j: int| 0 <= j < prev.len() && (#[trigger] prev[j]).tx_id == id && !bv.contains(prev[j]);
                        assert(next[j] == prev[j]);
                    }
                    if ids_missing_from(next, bv).contains(id) {
                        let j = choose|j: int| 0 <= j < next.len() && (#[trigger] next[j]).tx_id == id && !bv.contains(next[j]);
                        if j < i {
                            assert(prev[j] == next[j]);
                        } else {
                            assert(next[j] == av[i as int]);
                        }
                    }
                }
                assert(ids@ =~= ids_missing_from(next, bv));
            }
        }
        i = i + 1;
    }
    assert(av.subrange(0, n as int) =~= av);
    ids
}

/// Compares two lists of records: the identifiers of the records of the
/// left list that the right one does not hold, field for field, and those
/// of the right list that the left one does not hold.
pub fn compare_vecs(left: &Vec<TransactionRecord>, right: &Vec<TransactionRecord>) -> (res: [BTreeSet<u64>; 2])
    ensures
        res@[0]@ == ids_missing_from(
            left@.map_values(|x: TransactionRecord| x@),
            right@.map_values(|x: TransactionRecord| x@),
        ),
        res@[1]@ == ids_missing_from(
            right@.map_values(|x: TransactionRecord| x@),
            left@.map_values(|x: TransactionRecord| x@),
        ),
{
    let left_has_ids = missing_ids(left, right);
    let right_has_ids = missing_ids(right, left);
    [left_has_ids, right_has_ids]
}

} // verus!
