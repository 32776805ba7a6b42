//! Stable sorting by a strict weak order, as `slice::sort_by` does it.

use vstd::prelude::*;

verus! {

/// A strict weak order on values, with an executable test.
pub trait SortKey: Sized {
    /// `self` comes strictly before `other`.
    spec fn precedes(self, other: Self) -> bool;

    /// Tests `precedes`.
    fn goes_before(&self, other: &Self) -> (r: bool)
        ensures
            r == self.precedes(*other),
    ;

    /// `precedes` is a strict weak order: irreflexive, transitive, and a value
    /// before `b` is before everything that `b` is not after.
    proof fn lemma_strict_weak_order(a: Self, b: Self, c: Self)
        ensures
            !a.precedes(a),
            a.precedes(b) && b.precedes(c) ==> a.precedes(c),
            a.precedes(b) && !c.precedes(b) ==> a.precedes(c),
    ;
}

/// `p` lists each of `0..n` once.
pub open spec fn is_permutation(p: Seq<int>, n: int) -> bool {
    &&& p.len() == n
    &&& forall|k: int| 0 <= k < n ==> 0 <= #[trigger] p[k] < n
    &&& forall|a: int, b: int| 0 <= a < b < n ==> #[trigger] p[a] != #[trigger] p[b]
}

/// No element precedes one that stands before it.
pub open spec fn is_sorted<T: SortKey>(s: Seq<T>) -> bool {
    forall|a: int, b: int| 0 <= a < b < s.len() ==> !(#[trigger] s[b]).precedes(#[trigger] s[a])
}

/// `r` is `orig` reordered by `p` (`r[k] == orig[p[k]]`), sorted, and
/// elements that neither precede the other keep their original order.
pub open spec fn stable_sort_by<T: SortKey>(r: Seq<T>, orig: Seq<T>, p: Seq<int>) -> bool {
    &&& is_permutation(p, orig.len() as int)
    &&& r.len() == orig.len()
    &&& forall|k: int| 0 <= k < r.len() ==> #[trigger] r[k] == orig[p[k]]
    &&& is_sorted(r)
    &&& forall|a: int, b: int|
        0 <= a < b < r.len() && !(#[trigger] r[a]).precedes(#[trigger] r[b]) && !r[b].precedes(
            r[a],
        ) ==> p[a] < p[b]
}

/// `r` is a stable sort of `orig`.
pub open spec fn is_stable_sort_of<T: SortKey>(r: Seq<T>, orig: Seq<T>) -> bool {
    exists|p: Seq<int>| stable_sort_by(r, orig, p)
}

/// Where the element at `k` comes from when the element at `i` is moved to `q <= i`.
spec fn moved_from(k: int, q: int, i: int) -> int {
    if k < q {
        k
    } else if k == q {
        i
    } else if k <= i {
        k - 1
    } else {
        k
    }
}

/// Sorts `v` stably: afterwards no element precedes an earlier one, and
/// elements that neither precede the other keep their relative order.
pub fn stable_sort<T: SortKey>(v: &mut Vec<T>)
    ensures
        is_stable_sort_of(final(v)@, old(v)@),
{
    let ghost orig = v@;
    let n = v.len();
    let ghost mut p: Seq<int> = Seq::new(n as nat, |k: int| k);
    let mut i: usize = 0;
    while i < n
        invariant
            n == v.len() == orig.len(),
            i <= n,
            p.len() == n,
            forall|k: int| 0 <= k < i ==> 0 <= #[trigger] p[k] < i,
            forall|k: int| i <= k < n ==> #[trigger] p[k] == k,
            forall|a: int, b: int| 0 <= a < b < i ==> #[trigger] p[a] != #[trigger] p[b],
            forall|k: int| 0 <= k < n ==> #[trigger] v@[k] == orig[p[k]],
            forall|a: int, b: int|
                0 <= a < b < i ==> !(#[trigger] v@[b]).precedes(#[trigger] v@[a]),
            forall|a: int, b: int|
                0 <= a < b < i && !(#[trigger] v@[a]).precedes(#[trigger] v@[b]) && !v@[b].precedes(
                    v@[a],
                ) ==> p[a] < p[b],
        decreases n - i,
    {
        let ghost s = v@;
        let x = v.remove(i);
        proof {
            s.remove_ensures(i as int);
        }
        // The first place in the sorted prefix whose element `x` precedes.
        let mut q: usize = 0;
        while q < i && !x.goes_before(&v[q])
            invariant
                q <= i < n,
                s.len() == n,
                v@ == s.remove(i as int),
                v@.len() == n - 1,
                forall|a: int| 0 <= a < i ==> #[trigger] v@[a] == s[a],
                x == s[i as int],
                forall|a: int| 0 <= a < q ==> !x.precedes(#[trigger] s[a]),
            decreases i - q,
        {
            q += 1;
        }
        v.insert(q, x);
        proof {
            let qi = q as int;
            let ii = i as int;
            let t = v@;
            assert forall|k: int| 0 <= k < n implies #[trigger] t[k] == s[moved_from(k, qi, ii)] by {
                s.remove_ensures(ii);
                s.remove(ii).insert_ensures(qi, x);
                if k > qi && k <= ii {
                    assert(t[k] == s.remove(ii)[k - 1]);
                } else if k > ii {
                    assert(t[k] == s.remove(ii)[k - 1]);
                }
            }
            let p2 = Seq::new(n as nat, |k: int| p[moved_from(k, qi, ii)]);
            assert forall|k: int| 0 <= k < n implies #[trigger] t[k] == orig[p2[k]] by {
                assert(t[k] == s[moved_from(k, qi, ii)]);
            }
            assert forall|k: int| 0 <= k < i + 1 implies 0 <= #[trigger] p2[k] < i + 1 by {
                let m = moved_from(k, qi, ii);
                assert(0 <= m < ii || m == ii);
            }
            assert forall|k: int| i + 1 <= k < n implies #[trigger] p2[k] == k by {
                assert(moved_from(k, qi, ii) == k);
            }
            assert forall|a: int, b: int| 0 <= a < b < i + 1 implies #[trigger] p2[a]
                != #[trigger] p2[b] by {
                let ma = moved_from(a, qi, ii);
                let mb = moved_from(b, qi, ii);
                assert(ma != mb);
                if ma < ii && mb < ii {
                    if ma < mb {
                        assert(p[ma] != p[mb]);
                    } else {
                        assert(p[mb] != p[ma]);
                    }
                } else if ma == ii {
                    assert(p[mb] < ii);
                } else {
                    assert(p[ma] < ii);
                }
            }
            if qi < ii {
                assert(x.precedes(s[qi]));
            }
            assert forall|a: int, b: int| 0 <= a < b < i + 1 implies !(#[trigger] t[b]).precedes(
                #[trigger] t[a],
            ) by {
                let ma = moved_from(a, qi, ii);
                let mb = moved_from(b, qi, ii);
                assert(t[a] == s[ma]);
                assert(t[b] == s[mb]);
                if b == qi {
                    assert(!x.precedes(s[a]));
                } else if a == qi {
                    // `s[mb]` does not precede `s[q]`, and `x` precedes `s[q]`.
                    assert(qi < ii);
                    assert(qi <= mb < ii);
                    T::lemma_strict_weak_order(s[mb], x, s[qi]);
                    if mb > qi {
                        assert(!s[mb].precedes(s[qi]));
                    } else {
                        T::lemma_strict_weak_order(s[qi], s[qi], s[qi]);
                    }
                } else {
                    assert(ma < mb);
                    assert(!s[mb].precedes(s[ma]));
                }
            }
            assert forall|a: int, b: int|
                0 <= a < b < i + 1 && !(#[trigger] t[a]).precedes(#[trigger] t[b]) && !t[b].precedes(
                    t[a],
                ) implies p2[a] < p2[b] by {
                let ma = moved_from(a, qi, ii);
                let mb = moved_from(b, qi, ii);
                assert(t[a] == s[ma]);
                assert(t[b] == s[mb]);
                if b == qi {
                    assert(p[ma] < ii);
                } else if a == qi {
                    assert(qi < ii);
                    assert(qi <= mb < ii);
                    if mb > qi {
                        assert(!s[mb].precedes(s[qi]));
                    } else {
                        T::lemma_strict_weak_order(s[qi], s[qi], s[qi]);
                    }
                    T::lemma_strict_weak_order(x, s[qi], s[mb]);
                    assert(x.precedes(s[mb]));
                } else {
                    assert(ma < mb);
                    assert(p[ma] < p[mb]);
                }
            }
            p = p2;
        }
        i += 1;
    }
    assert(stable_sort_by(v@, orig, p));
}

} // verus!
