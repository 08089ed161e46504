//! Ordering of records by a numeric key, largest first.
use vstd::prelude::*;

verus! {

/// `r` holds each index below `n` exactly once.
pub open spec fn is_permutation(r: Seq<usize>, n: nat) -> bool {
    &&& r.len() == n
    &&& forall|k: int| 0 <= k < r.len() ==> #[trigger] r[k] < n
    &&& forall|k: int, l: int| 0 <= k < r.len() && 0 <= l < r.len() && k != l ==> #[trigger] r[k] != #[trigger] r[l]
    &&& forall|h: int| 0 <= h < n ==> #[trigger] holds_index(r, h)
}

/// Some entry of `r` is `h`.
pub open spec fn holds_index(r: Seq<usize>, h: int) -> bool {
    exists|k: int| 0 <= k < r.len() && r[k] == h
}

/// The indices in `r` name keys that never grow along `r`.
pub open spec fn ranked_by(r: Seq<usize>, keys: Seq<u64>) -> bool {
    forall|k: int, l: int| 0 <= k < l < r.len() ==> keys[#[trigger] r[k] as int] >= keys[#[trigger] r[l] as int]
}

/// The indices of `keys`, ordered by key, largest first.
pub fn rank_desc(keys: &Vec<u64>) -> (r: Vec<usize>)
    ensures
        is_permutation(r@, keys@.len()),
        ranked_by(r@, keys@),
{
    let n = keys.len();
    let mut idx: Vec<usize> = Vec::new();
    let mut i: usize = 0;
    while i < n
        invariant
            i <= n == keys@.len(),
            idx@.len() == i,
            forall|k: int| 0 <= k < i ==> #[trigger] idx@[k] == k,
        decreases n - i,
    {
        idx.push(i);
        i += 1;
    }
    assert(is_permutation(idx@, n as nat)) by {
        assert forall|h: int| 0 <= h < n implies #[trigger] holds_index(idx@, h) by {
            assert(idx@[h] == h);
        }
    }
    let mut i: usize = 0;
    while i < n
        invariant
            i <= n == keys@.len(),
            is_permutation(idx@, n as nat),
            forall|k: int, l: int| 0 <= k < l < i ==> keys@[#[trigger] idx@[k] as int] >= keys@[#[trigger] idx@[l] as int],
            forall|k: int, l: int| 0 <= k < i <= l < n ==> keys@[#[trigger] idx@[k] as int] >= keys@[#[trigger] idx@[l] as int],
        decreases n - i,
    {
        let mut m: usize = i;
        let mut j: usize = i + 1;
        while j < n
            invariant
                i <= m < n == keys@.len(),
                i < j <= n,
                idx@.len() == n,
                forall|k: int| 0 <= k < idx@.len() ==> #[trigger] idx@[k] < n,
                forall|l: int| i <= l < j ==> keys@[idx@[m as int] as int] >= keys@[#[trigger] idx@[l] as int],
            decreases n - j,
        {
            if keys[idx[j]] > keys[idx[m]] {
                m = j;
            }
            j += 1;
        }
        let a = idx[i];
        let b = idx[m];
        let ghost before = idx@;
        idx.set(i, b);
        idx.set(m, a);
        proof {
            assert forall|h: int| 0 <= h < n implies #[trigger] holds_index(idx@, h) by {
                assert(holds_index(before, h));
                let k = choose|k: int| 0 <= k < before.len() && before[k] == h;
                if k == i {
                    assert(idx@[m as int] == h);
                } else if k == m {
                    assert(idx@[i as int] == h);
                } else {
                    assert(idx@[k] == h);
                }
            }
            assert forall|k: int, l: int| 0 <= k < idx@.len() && 0 <= l < idx@.len() && k != l
                implies #[trigger] idx@[k] != #[trigger] idx@[l] by {
                let k0 = if k == i { m as int } else if k == m { i as int } else { k };
                let l0 = if l == i { m as int } else if l == m { i as int } else { l };
                assert(idx@[k] == before[k0]);
                assert(idx@[l] == before[l0]);
            }
            assert forall|k: int, l: int| 0 <= k < l < i + 1 implies keys@[#[trigger] idx@[k] as int] >= keys@[#[trigger] idx@[l] as int] by {
                if l < i {
                    assert(idx@[k] == before[k] && idx@[l] == before[l]);
                } else {
                    assert(idx@[k] == before[k]);
                    assert(idx@[l] == before[m as int]);
                }
            }
            assert forall|k: int, l: int| 0 <= k < i + 1 <= l < n implies keys@[#[trigger] idx@[k] as int] >= keys@[#[trigger] idx@[l] as int] by {
                let l0 = if l == m { i as int } else { l };
                assert(idx@[l] == before[l0]);
                if k < i {
                    assert(idx@[k] == before[k]);
                } else {
                    assert(idx@[k] == before[m as int]);
                }
            }
        }
        i += 1;
    }
    idx
}

} // verus!
