//! Analysis pipelines: which built-in pipelines are listed beside the
//! stored ones, and which pipelines may be stored.

use vstd::prelude::*;

verus! {

/// Whether some stored pipeline has the id `id`.
pub open spec fn stored_has(stored: Seq<String>, id: Seq<char>) -> bool {
    exists|j: int| 0 <= j < stored.len() && stored[j]@ == id
}

/// The built-in pipelines among the first `n` that a listing adds after the
/// stored ones: those whose id no stored pipeline and no earlier built-in
/// pipeline has.
pub open spec fn added_builtins(stored: Seq<String>, builtin: Seq<String>, n: nat) -> Seq<int>
    decreases n,
{
    if n == 0 {
        seq![]
    } else {
        let k = n - 1;
        let rest = added_builtins(stored, builtin, (n - 1) as nat);
        if !stored_has(stored, builtin[k]@) && forall|j: int| 0 <= j < k ==> builtin[j]@ != builtin[k]@ {
            rest.push(k)
        } else {
            rest
        }
    }
}

fn has_id(ids: &[String], upto: usize, id: &String) -> (b: bool)
    requires
        upto <= ids@.len(),
    ensures
        b == (exists|j: int| 0 <= j < upto && ids@[j]@ == id@),
{
    let mut i: usize = 0;
    while i < upto
        invariant
            upto <= ids@.len(),
            i <= upto,
            forall|j: int| 0 <= j < i ==> ids@[j]@ != id@,
        decreases upto - i,
    {
        if ids[i] == *id {
            return true;
        }
        i = i + 1;
    }
    false
}

/// Picks the built-in pipelines to list after the stored ones, by position.
pub fn builtins_to_list(stored_ids: &[String], builtin_ids: &[String]) -> (r: Vec<usize>)
    ensures
        r@.len() == added_builtins(stored_ids@, builtin_ids@, builtin_ids@.len()).len(),
        forall|k: int| 0 <= k < r@.len() ==> r@[k] as int == #[trigger] added_builtins(stored_ids@, builtin_ids@, builtin_ids@.len())[k],
{
    let mut r: Vec<usize> = Vec::new();
    let mut k: usize = 0;
    while k < builtin_ids.len()
        invariant
            k <= builtin_ids@.len(),
            r@.len() == added_builtins(stored_ids@, builtin_ids@, k as nat).len(),
            forall|m: int| 0 <= m < r@.len() ==> r@[m] as int == #[trigger] added_builtins(stored_ids@, builtin_ids@, k as nat)[m],
        decreases builtin_ids.len() - k,
    {
        let in_stored = has_id(stored_ids, stored_ids.len(), &builtin_ids[k]);
        let earlier = has_id(builtin_ids, k, &builtin_ids[k]);
        let ghost prev = added_builtins(stored_ids@, builtin_ids@, k as nat);
        if !in_stored && !earlier {
            r.push(k);
        }
        proof {
            let next = added_builtins(stored_ids@, builtin_ids@, (k + 1) as nat);
            assert(next == if !in_stored && !earlier { prev.push(k as int) } else { prev });
        }
        k = k + 1;
    }
    r
}

/// Built-in pipelines are never stored.
pub fn check_savable(is_builtin: bool) -> (r: Result<(), String>)
    ensures
        is_builtin ==> (r matches Err(e) && e@ == "Cannot persist builtin pipelines"@),
        !is_builtin ==> r is Ok,
{
    if is_builtin {
        Err(String::from_str("Cannot persist builtin pipelines"))
    } else {
        Ok(())
    }
}

} // verus!
