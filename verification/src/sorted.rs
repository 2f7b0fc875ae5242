//! Strictly increasing vectors used as ordered sets.

use vstd::prelude::*;

verus! {

/// Every element is smaller than the ones after it.
pub open spec fn strictly_sorted(s: Seq<u32>) -> bool {
    forall|i: int, j: int| 0 <= i < j < s.len() ==> s[i] < s[j]
}

/// Insert `x` into the ordered set `v`; no effect when already present.
pub fn sorted_insert(v: &mut Vec<u32>, x: u32)
    requires
        strictly_sorted(old(v)@),
    ensures
        strictly_sorted(final(v)@),
        final(v)@.to_set() == old(v)@.to_set().insert(x),
{
    let n = v.len();
    let mut p: usize = 0;
    while p < n && v[p] < x
        invariant
            n == v.len(),
            p <= n,
            v@ == old(v)@,
            forall|j: int| 0 <= j < p ==> v@[j] < x,
        decreases n - p,
    {
        p = p + 1;
    }
    if p < n && v[p] == x {
        assert(old(v)@.to_set().insert(x) =~= old(v)@.to_set()) by {
            assert(old(v)@.contains(x)) by {
                assert(old(v)@[p as int] == x);
            }
        }
        return;
    }
    let ghost before = v@;
    v.insert(p, x);
    assert(v@ == before.insert(p as int, x));
    assert forall|i: int, j: int| 0 <= i < j < v@.len() implies v@[i] < v@[j] by {
        if j < p {
        } else if j == p {
        } else if i < p {
            assert(before[i] < x);
            assert(p < n ==> x <= before[p as int]);
            assert(before[j - 1] >= before[p as int] || j - 1 == p);
        } else if i == p {
            assert(x <= before[p as int]);
        } else {
        }
    }
    assert(v@.to_set() =~= old(v)@.to_set().insert(x)) by {
        assert forall|a: u32| v@.contains(a) <==> (old(v)@.contains(a) || a == x) by {
            if v@.contains(a) {
                let k = choose|k: int| 0 <= k < v@.len() && v@[k] == a;
                if k < p {
                    assert(before[k] == a);
                } else if k > p {
                    assert(before[k - 1] == a);
                }
            }
            if old(v)@.contains(a) {
                let k = choose|k: int| 0 <= k < before.len() && before[k] == a;
                if k < p {
                    assert(v@[k] == a);
                } else {
                    assert(v@[k + 1] == a);
                }
            }
            if a == x {
                assert(v@[p as int] == x);
            }
        }
    }
}

/// Remove `x` from the ordered set `v`; no effect when absent.
pub fn sorted_remove(v: &mut Vec<u32>, x: u32)
    requires
        strictly_sorted(old(v)@),
    ensures
        strictly_sorted(final(v)@),
        final(v)@.to_set() == old(v)@.to_set().remove(x),
{
    let n = v.len();
    let mut p: usize = 0;
    while p < n && v[p] != x
        invariant
            n == v.len(),
            p <= n,
            v@ == old(v)@,
            forall|j: int| 0 <= j < p ==> v@[j] != x,
        decreases n - p,
    {
        p = p + 1;
    }
    if p == n {
        assert(old(v)@.to_set().remove(x) =~= old(v)@.to_set());
        return;
    }
    let ghost before = v@;
    v.remove(p);
    assert(v@ == before.remove(p as int));
    assert forall|i: int, j: int| 0 <= i < j < v@.len() implies v@[i] < v@[j] by {
        if j < p {
        } else if i < p {
            assert(before[i] < before[j + 1]);
        } else {
            assert(before[i + 1] < before[j + 1]);
        }
    }
    assert(v@.to_set() =~= old(v)@.to_set().remove(x)) by {
        assert forall|a: u32| v@.contains(a) <==> (old(v)@.contains(a) && a != x) by {
            if v@.contains(a) {
                let k = choose|k: int| 0 <= k < v@.len() && v@[k] == a;
                if k < p {
                    assert(before[k] == a);
                } else {
                    assert(before[k + 1] == a);
                    assert(before[p as int] < before[k + 1]);
                }
            }
            if old(v)@.contains(a) && a != x {
                let k = choose|k: int| 0 <= k < before.len() && before[k] == a;
                if k < p {
                    assert(v@[k] == a);
                } else {
                    assert(k != p);
                    assert(v@[k - 1] == a);
                }
            }
        }
    }
}

} // verus!
