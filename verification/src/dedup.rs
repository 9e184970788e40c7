//! Merging duplicate facts.

use vstd::prelude::*;

verus! {

/// The members of a duplicate group that a merge soft-deletes: all but the
/// keeper, in order.
pub open spec fn merge_targets_of(keeper: i64, members: Seq<i64>) -> Seq<i64>
    decreases members.len(),
{
    if members.len() == 0 {
        seq![]
    } else {
        let rest = merge_targets_of(keeper, members.drop_last());
        if members.last() == keeper { rest } else { rest.push(members.last()) }
    }
}

/// Picks the facts that merging a duplicate group into `keeper` deletes.
pub fn merge_targets(keeper: i64, members: &[i64]) -> (r: Vec<i64>)
    ensures
        r@ == merge_targets_of(keeper, members@),
{
    let mut r: Vec<i64> = Vec::new();
    let mut i: usize = 0;
    while i < members.len()
        invariant
            i <= members@.len(),
            r@ == merge_targets_of(keeper, members@.take(i as int)),
        decreases members.len() - i,
    {
        assert(members@.take(i as int + 1).drop_last() =~= members@.take(i as int));
        if members[i] != keeper {
            r.push(members[i]);
        }
        i = i + 1;
    }
    assert(members@.take(members@.len() as int) =~= members@);
    r
}

/// The keeper survives its own merge, and every other member is deleted.
pub proof fn law_merge_spares_keeper(keeper: i64, members: Seq<i64>)
    ensures
        !merge_targets_of(keeper, members).contains(keeper),
        forall|m: i64| members.contains(m) && m != keeper ==> merge_targets_of(keeper, members).contains(m),
    decreases members.len(),
{
    if members.len() > 0 {
        law_merge_spares_keeper(keeper, members.drop_last());
        let rest = merge_targets_of(keeper, members.drop_last());
        let r = merge_targets_of(keeper, members);
        assert forall|m: i64| members.contains(m) && m != keeper implies r.contains(m) by {
            let j = choose|j: int| 0 <= j < members.len() && members[j] == m;
            if j < members.len() - 1 {
                assert(members.drop_last()[j] == m);
                assert(members.drop_last().contains(m));
                let k = choose|k: int| 0 <= k < rest.len() && rest[k] == m;
                assert(r[k] == m);
            } else {
                assert(r[r.len() - 1] == m);
            }
        }
        if r.contains(keeper) {
            let k = choose|k: int| 0 <= k < r.len() && r[k] == keeper;
            if k < rest.len() {
                assert(rest[k] == keeper);
            }
        }
    }
}

} // verus!
