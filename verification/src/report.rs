//! Consumption of scan records: threshold filtering, descending sort by
//! size, and collection of per-path deletion failures.
use crate::built_project::BuiltProject;
use vstd::multiset::Multiset;
use vstd::prelude::*;

verus! {

/// A record passes the thresholds when it is strictly larger than `min_size`
/// megabytes and strictly older than the `cutoff` timestamp.
pub open spec fn keep_pred(min_size: u64, cutoff: u64) -> spec_fn(BuiltProject) -> bool {
    |p: BuiltProject| p.size > min_size && p.last_modified < cutoff
}

/// Keep exactly the records strictly larger than `min_size` megabytes and
/// strictly older than the `cutoff` timestamp, in order.
pub fn filter_records(records: Vec<BuiltProject>, min_size: u64, cutoff: u64) -> (r: Vec<
    BuiltProject,
>)
    ensures
        r@ == records@.filter(keep_pred(min_size, cutoff)),
{
    let ghost orig = records@;
    let ghost pred = keep_pred(min_size, cutoff);
    let mut work = records;
    let total = work.len();
    let mut out: Vec<BuiltProject> = Vec::new();
    let mut k: usize = 0;
    proof {
        reveal_with_fuel(Seq::<_>::filter, 1);
        assert(orig.take(0).filter(pred) =~= Seq::<BuiltProject>::empty());
    }
    while work.len() > 0
        invariant
            total == orig.len(),
            0 <= k <= orig.len(),
            work@ =~= orig.skip(k as int),
            out@ == orig.take(k as int).filter(pred),
            pred == keep_pred(min_size, cutoff),
        decreases work@.len(),
    {
        let p = work.remove(0);
        proof {
            reveal_with_fuel(Seq::<_>::filter, 1);
            assert(p == orig[k as int]);
            assert(orig.skip(k as int).remove(0) =~= orig.skip(k as int + 1));
            let prefix = orig.take(k as int + 1);
            assert(prefix.drop_last() =~= orig.take(k as int));
            assert(prefix.last() == orig[k as int]);
            if pred(p) {
                assert(prefix.filter(pred) == orig.take(k as int).filter(pred).push(p));
            } else {
                assert(prefix.filter(pred) == orig.take(k as int).filter(pred));
            }
        }
        if p.size > min_size && p.last_modified < cutoff {
            assert(pred(p));
            out.push(p);
        } else {
            assert(!pred(p));
        }
        k = k + 1;
    }
    proof {
        assert(orig.take(orig.len() as int) =~= orig);
    }
    out
}

/// The records are ordered by non-increasing size.
pub open spec fn sorted_desc(s: Seq<BuiltProject>) -> bool {
    forall|i: int, j: int| 0 <= i <= j < s.len() ==> s[i].size >= s[j].size
}

/// The index of a record of `work` whose size no other record exceeds.
fn find_largest(work: &Vec<BuiltProject>) -> (r: usize)
    requires
        work@.len() > 0,
    ensures
        r < work@.len(),
        forall|l: int| 0 <= l < work@.len() ==> work@[l].size <= work@[r as int].size,
{
    let mut best: usize = 0;
    let mut i: usize = 1;
    while i < work.len()
        invariant
            0 <= best < work@.len(),
            1 <= i <= work@.len(),
            forall|l: int| 0 <= l < i ==> work@[l].size <= work@[best as int].size,
        decreases work@.len() - i,
    {
        if work[i].size > work[best].size {
            best = i;
        }
        i = i + 1;
    }
    best
}

/// Order the records by non-increasing size. The result holds exactly the
/// given records.
pub fn sort_by_size_desc(records: Vec<BuiltProject>) -> (r: Vec<BuiltProject>)
    ensures
        sorted_desc(r@),
        r@.to_multiset() == records@.to_multiset(),
        r@.len() == records@.len(),
{
    broadcast use vstd::seq_lib::group_to_multiset_ensures;
    broadcast use vstd::multiset::group_multiset_axioms;

    let ghost orig = records@;
    let mut work = records;
    let mut out: Vec<BuiltProject> = Vec::new();
    while work.len() > 0
        invariant
            sorted_desc(out@),
            out@.to_multiset().add(work@.to_multiset()) =~= orig.to_multiset(),
            out@.len() + work@.len() == orig.len(),
            forall|k: int, l: int|
                0 <= k < out@.len() && 0 <= l < work@.len() ==> out@[k].size >= work@[l].size,
        decreases work@.len(),
    {
        let ghost pre_work = work@;
        let ghost pre_out = out@;
        let mi = find_largest(&work);
        let x = work.remove(mi);
        proof {
            broadcast use vstd::multiset::group_multiset_axioms;

            vstd::seq_lib::to_multiset_remove(pre_work, mi as int);
            vstd::seq_lib::to_multiset_contains(pre_work, x);
            vstd::seq_lib::to_multiset_build(pre_out, x);
            assert(pre_work.contains(x));
            assert(pre_out.to_multiset().insert(x).add(pre_work.to_multiset().remove(x))
                =~= pre_out.to_multiset().add(pre_work.to_multiset()));
        }
        out.push(x);
    }
    proof {
        broadcast use vstd::multiset::group_multiset_axioms;

        assert(work@.to_multiset() =~= Multiset::<BuiltProject>::empty()) by {
            vstd::seq_lib::to_multiset_len(work@);
        }
        assert(out@.to_multiset() =~= out@.to_multiset().add(work@.to_multiset()));
    }
    out
}

/// The deletion failures among `records`, each paired with its reported error
/// message: the records whose outcome carries a message, in order.
pub open spec fn failed_pairs(records: Seq<BuiltProject>, outcomes: Seq<Option<String>>) -> Seq<
    (BuiltProject, String),
>
    recommends
        records.len() == outcomes.len(),
    decreases records.len(),
{
    if records.len() == 0 {
        Seq::empty()
    } else {
        let rest = failed_pairs(records.drop_first(), outcomes.drop_first());
        match outcomes[0] {
            Some(msg) => seq![(records[0], msg)] + rest,
            None => rest,
        }
    }
}

/// Pair each record whose deletion failed with its error message. `outcomes`
/// reports, for each record in order, `None` for a successful deletion and
/// `Some(message)` for a failed one; one failure never hides another record's
/// outcome.
pub fn collect_failed_removals(records: Vec<BuiltProject>, outcomes: Vec<Option<String>>) -> (r:
    Vec<(BuiltProject, String)>)
    requires
        records@.len() == outcomes@.len(),
    ensures
        r@ == failed_pairs(records@, outcomes@),
{
    let ghost orig_r = records@;
    let ghost orig_o = outcomes@;
    let mut work_r = records;
    let mut work_o = outcomes;
    let mut out: Vec<(BuiltProject, String)> = Vec::new();
    while work_r.len() > 0
        invariant
            work_r@.len() == work_o@.len(),
            out@ + failed_pairs(work_r@, work_o@) == failed_pairs(orig_r, orig_o),
        decreases work_r@.len(),
    {
        let ghost pre_r = work_r@;
        let ghost pre_o = work_o@;
        let p = work_r.remove(0);
        let o = work_o.remove(0);
        proof {
            assert(pre_r.remove(0) =~= pre_r.drop_first());
            assert(pre_o.remove(0) =~= pre_o.drop_first());
        }
        match o {
            Some(msg) => {
                proof {
                    assert(failed_pairs(pre_r, pre_o) == seq![(p, msg)] + failed_pairs(
                        work_r@,
                        work_o@,
                    ));
                    assert(out@.push((p, msg)) + failed_pairs(work_r@, work_o@) =~= out@ + (seq![
                        (p, msg),
                    ] + failed_pairs(work_r@, work_o@)));
                }
                out.push((p, msg));
            },
            None => {
                proof {
                    assert(failed_pairs(pre_r, pre_o) == failed_pairs(work_r@, work_o@));
                }
            },
        }
    }
    proof {
        assert(failed_pairs(work_r@, work_o@) =~= Seq::<(BuiltProject, String)>::empty());
        assert(out@ + failed_pairs(work_r@, work_o@) =~= out@);
    }
    out
}

} // verus!
