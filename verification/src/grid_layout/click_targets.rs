use vstd::prelude::*;

verus! {

/// The targets of the first `n` entries that sit on page `page`, in order.
pub open spec fn page_targets<T>(targets: Seq<(usize, T)>, page: usize, n: int) -> Seq<T>
    decreases n,
{
    if n <= 0 {
        seq![]
    } else {
        page_targets(targets, page, n - 1) + if targets[n - 1].0 == page {
            seq![targets[n - 1].1]
        } else {
            seq![]
        }
    }
}

/// Copies of the targets that sit on page `page_idx`, in order.
pub fn targets_on_page<T: Clone>(targets: &[(usize, T)], page_idx: usize) -> (r: Vec<T>)
    ensures
        r@.len() == page_targets(targets@, page_idx, targets@.len() as int).len(),
        forall|i: int|
            0 <= i < r@.len() ==> cloned::<T>(
                page_targets(targets@, page_idx, targets@.len() as int)[i],
                #[trigger] r@[i],
            ),
{
    let mut r: Vec<T> = Vec::new();
    let mut k: usize = 0;
    while k < targets.len()
        invariant
            k <= targets@.len(),
            r@.len() == page_targets(targets@, page_idx, k as int).len(),
            forall|i: int|
                0 <= i < r@.len() ==> cloned::<T>(
                    page_targets(targets@, page_idx, k as int)[i],
                    #[trigger] r@[i],
                ),
        decreases targets@.len() - k,
    {
        if targets[k].0 == page_idx {
            let t = targets[k].1.clone();
            proof {
                let prev = page_targets(targets@, page_idx, k as int);
                assert(page_targets(targets@, page_idx, k + 1) == prev.push(targets@[k as int].1));
            }
            r.push(t);
        } else {
            proof {
                let prev = page_targets(targets@, page_idx, k as int);
                assert(page_targets(targets@, page_idx, k + 1) == prev);
            }
        }
        k += 1;
    }
    r
}

} // verus!
