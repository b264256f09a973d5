use vstd::prelude::*;

verus! {

/// A total preorder on a type, with an executable test for it. Items that
/// precede each other both ways are ties, which a stable order keeps in
/// the order they came in.
pub trait SortKey: Sized {
    /// `self` may stand before `other`.
    spec fn precedes(&self, other: &Self) -> bool;

    proof fn lemma_precedes_reflexive(a: &Self)
        ensures
            a.precedes(a),
    ;

    proof fn lemma_precedes_transitive(a: &Self, b: &Self, c: &Self)
        requires
            a.precedes(b),
            b.precedes(c),
        ensures
            a.precedes(c),
    ;

    proof fn lemma_precedes_total(a: &Self, b: &Self)
        ensures
            a.precedes(b) || b.precedes(a),
    ;

    fn precedes_exec(&self, other: &Self) -> (r: bool)
        ensures
            r == self.precedes(other),
    ;
}

/// `order` lists every index of `items` exactly once.
pub open spec fn is_index_permutation<T>(order: Seq<usize>, n: int) -> bool {
    &&& order.len() == n
    &&& forall|i: int| 0 <= i < n ==> #[trigger] order[i] < n
    &&& forall|i: int, j: int| 0 <= i < j < n ==> order[i] != order[j]
}

/// `order` is the stable sorted order of `items`: a permutation of its
/// indices, sorted by `precedes`, with ties in the order they came in.
pub open spec fn is_stable_order<T: SortKey>(items: Seq<T>, order: Seq<usize>) -> bool {
    &&& is_index_permutation::<T>(order, items.len() as int)
    &&& forall|i: int, j: int|
        0 <= i < j < order.len() ==> #[trigger] items[order[i] as int].precedes(
            &#[trigger] items[order[j] as int],
        )
    &&& forall|i: int, j: int|
        0 <= i < j < order.len() && items[order[j] as int].precedes(&items[order[i] as int])
            ==> #[trigger] order[i] < #[trigger] order[j]
}

/// The prefix invariant of insertion: `order` holds exactly the indices below
/// `k`, stably sorted.
spec fn is_stable_prefix_order<T: SortKey>(items: Seq<T>, order: Seq<usize>, k: int) -> bool {
    &&& order.len() == k
    &&& forall|i: int| 0 <= i < k ==> #[trigger] order[i] < k
    &&& forall|i: int, j: int| 0 <= i < j < k ==> order[i] != order[j]
    &&& forall|i: int, j: int|
        0 <= i < j < k ==> #[trigger] items[order[i] as int].precedes(
            &#[trigger] items[order[j] as int],
        )
    &&& forall|i: int, j: int|
        0 <= i < j < k && items[order[j] as int].precedes(&items[order[i] as int])
            ==> #[trigger] order[i] < #[trigger] order[j]
}

/// The stable sorted order of `items` under `precedes`, as a list of indices
/// (what `sort_by` produces, given as positions into the input).
pub fn stable_order<T: SortKey>(items: &Vec<T>) -> (order: Vec<usize>)
    ensures
        is_stable_order(items@, order@),
{
    let n = items.len();
    let mut order: Vec<usize> = Vec::new();
    let mut k: usize = 0;
    while k < n
        invariant
            n == items.len(),
            k <= n,
            is_stable_prefix_order(items@, order@, k as int),
        decreases n - k,
    {
        // Insert k after every element that may stand before it.
        let mut q: usize = 0;
        while q < order.len() && items[order[q]].precedes_exec(&items[k])
            invariant
                n == items.len(),
                k < n,
                q <= order.len(),
                is_stable_prefix_order(items@, order@, k as int),
                forall|r: int|
                    0 <= r < q ==> #[trigger] items@[order@[r] as int].precedes(&items@[k as int]),
            decreases order.len() - q,
        {
            q = q + 1;
        }
        let ghost old_order = order@;
        proof {
            // Everything before q may stand before item k; everything from q on
            // comes strictly after it.
            assert forall|r: int| #![trigger old_order[r]] 0 <= r < q implies items@[old_order[
                r
            ] as int].precedes(&items@[k as int]) by {}
            assert forall|r: int| #![trigger old_order[r]] q <= r < old_order.len() implies !items@[
                old_order[r] as int].precedes(&items@[k as int]) && items@[k as int].precedes(
                &items@[old_order[r] as int],
            ) by {
                if items@[old_order[r] as int].precedes(&items@[k as int]) {
                    assert(q < r);
                    T::lemma_precedes_transitive(
                        &items@[old_order[q as int] as int],
                        &items@[old_order[r] as int],
                        &items@[k as int],
                    );
                }
                T::lemma_precedes_total(&items@[old_order[r] as int], &items@[k as int]);
            }
        }
        order.insert(q, k);
        proof {
            let new_order = order@;
            assert(new_order == old_order.insert(q as int, k));
            assert forall|i: int| 0 <= i < k + 1 implies #[trigger] new_order[i] < k + 1 by {
                if i < q {
                    assert(new_order[i] == old_order[i]);
                } else if i > q {
                    assert(new_order[i] == old_order[i - 1]);
                }
            }
            assert forall|i: int, j: int| 0 <= i < j < k + 1 implies new_order[i]
                != new_order[j] by {
                if i < q && j < q {
                } else if i < q && j == q {
                } else if i < q {
                    assert(new_order[j] == old_order[j - 1]);
                } else if i == q {
                    assert(new_order[j] == old_order[j - 1]);
                } else {
                    assert(new_order[i] == old_order[i - 1]);
                    assert(new_order[j] == old_order[j - 1]);
                }
            }
            assert forall|i: int, j: int| 0 <= i < j < k + 1 implies #[trigger] items@[new_order[
                i
            ] as int].precedes(&#[trigger] items@[new_order[j] as int]) by {
                if j < q {
                    assert(new_order[i] == old_order[i]);
                    assert(new_order[j] == old_order[j]);
                } else if j == q {
                    assert(new_order[i] == old_order[i]);
                } else if i < q {
                    assert(new_order[i] == old_order[i]);
                    assert(new_order[j] == old_order[j - 1]);
                    // old i < q precedes k, and k precedes old j - 1 (j - 1 >= q)
                    T::lemma_precedes_transitive(
                        &items@[old_order[i] as int],
                        &items@[k as int],
                        &items@[old_order[j - 1] as int],
                    );
                } else if i == q {
                    assert(new_order[j] == old_order[j - 1]);
                } else {
                    assert(new_order[i] == old_order[i - 1]);
                    assert(new_order[j] == old_order[j - 1]);
                }
            }
            assert forall|i: int, j: int|
                0 <= i < j < k + 1 && items@[new_order[j] as int].precedes(
                    &items@[new_order[i] as int],
                ) implies #[trigger] new_order[i] < #[trigger] new_order[j] by {
                if j < q {
                    assert(new_order[i] == old_order[i]);
                    assert(new_order[j] == old_order[j]);
                } else if j == q {
                    assert(new_order[i] == old_order[i]);
                } else if i < q {
                    assert(new_order[i] == old_order[i]);
                    assert(new_order[j] == old_order[j - 1]);
                    // old j - 1 >= q does not precede k, while old i precedes k
                    if items@[old_order[j - 1] as int].precedes(&items@[old_order[i] as int]) {
                        T::lemma_precedes_transitive(
                            &items@[old_order[j - 1] as int],
                            &items@[old_order[i] as int],
                            &items@[k as int],
                        );
                    }
                } else if i == q {
                    assert(new_order[j] == old_order[j - 1]);
                } else {
                    assert(new_order[i] == old_order[i - 1]);
                    assert(new_order[j] == old_order[j - 1]);
                }
            }
        }
        k = k + 1;
    }
    order
}

} // verus!

verus! {

/// `order` is the stable sorted order of `items` under `before`: a
/// permutation of its indices, sorted by `before`, with ties in their
/// input order.
pub open spec fn is_stable_order_by<A>(items: Seq<A>, order: Seq<usize>, before: spec_fn(A, A) -> bool) -> bool {
    &&& is_index_permutation::<A>(order, items.len() as int)
    &&& forall|i: int, j: int|
        0 <= i < j < order.len() ==> #[trigger] before(items[order[i] as int], items[order[j] as int])
    &&& forall|i: int, j: int|
        0 <= i < j < order.len() && before(items[order[j] as int], items[order[i] as int])
            ==> #[trigger] order[i] < #[trigger] order[j]
}

/// A stable order computed with a `SortKey` is a stable order under any
/// relation that agrees with `precedes` on the items.
pub proof fn lemma_stable_order_transfer<T: SortKey, A>(
    items: Seq<T>,
    views: Seq<A>,
    order: Seq<usize>,
    before: spec_fn(A, A) -> bool,
)
    requires
        is_stable_order(items, order),
        items.len() == views.len(),
        forall|i: int, j: int|
            0 <= i < items.len() && 0 <= j < items.len() ==> #[trigger] items[i].precedes(&items[j])
                == before(views[i], views[j]),
    ensures
        is_stable_order_by(views, order, before),
{
    assert forall|i: int, j: int| 0 <= i < j < order.len() implies #[trigger] before(
        views[order[i] as int],
        views[order[j] as int],
    ) by {
        assert(items[order[i] as int].precedes(&items[order[j] as int]));
    }
    assert forall|i: int, j: int|
        0 <= i < j < order.len() && before(views[order[j] as int], views[order[i] as int])
            implies #[trigger] order[i] < #[trigger] order[j] by {
        assert(items[order[j] as int].precedes(&items[order[i] as int]));
    }
}

} // verus!

verus! {

/// Index `k` occurs in `order`.
pub open spec fn occurs(order: Seq<usize>, k: int) -> bool {
    exists|i: int| 0 <= i < order.len() && order[i] as int == k
}

/// An index permutation reaches every index.
pub proof fn lemma_permutation_onto<T>(order: Seq<usize>, n: int)
    requires
        is_index_permutation::<T>(order, n),
    ensures
        forall|k: int| 0 <= k < n ==> #[trigger] occurs(order, k),
{
    let s = order.map_values(|x: usize| x as int);
    assert(s.no_duplicates()) by {
        assert forall|i: int, j: int| 0 <= i < s.len() && 0 <= j < s.len() && i != j implies s[i] != s[j] by {
            if i < j {
                assert(order[i] != order[j]);
            } else {
                assert(order[j] != order[i]);
            }
        }
    }
    s.unique_seq_to_set();
    vstd::set_lib::lemma_int_range(0, n);
    let range = vstd::set_lib::set_int_range(0, n);
    assert(s.to_set().subset_of(range)) by {
        assert forall|x: int| s.to_set().contains(x) implies range.contains(x) by {
            assert(s.contains(x));
            let i = choose|i: int| 0 <= i < s.len() && s[i] == x;
            assert(order[i] < n);
        }
    }
    broadcast use vstd::seq_lib::seq_to_set_is_finite;
    vstd::set_lib::lemma_subset_equality(s.to_set(), range);
    assert forall|k: int| 0 <= k < n implies #[trigger] occurs(order, k) by {
        assert(range.contains(k));
        assert(s.to_set().contains(k));
        assert(s.contains(k));
        let i = choose|i: int| 0 <= i < s.len() && s[i] == k;
        assert(order[i] as int == k);
    }
}

/// Two stable orders of the same items under the same relation agree on
/// their first `k` positions.
proof fn lemma_stable_orders_agree_upto<A>(
    items: Seq<A>,
    o1: Seq<usize>,
    o2: Seq<usize>,
    before: spec_fn(A, A) -> bool,
    k: int,
)
    requires
        is_stable_order_by(items, o1, before),
        is_stable_order_by(items, o2, before),
        0 <= k <= o1.len(),
    ensures
        forall|m: int| 0 <= m < k ==> o1[m] == o2[m],
    decreases k,
{
    if k > 0 {
        lemma_stable_orders_agree_upto(items, o1, o2, before, k - 1);
        let j = k - 1;
        let a = o1[j];
        let b = o2[j];
        if a != b {
            let n = items.len() as int;
            lemma_permutation_onto::<A>(o1, n);
            lemma_permutation_onto::<A>(o2, n);
            assert(occurs(o1, b as int));
            assert(occurs(o2, a as int));
            let p = choose|p: int| 0 <= p < o1.len() && o1[p] as int == b as int;
            let q = choose|q: int| 0 <= q < o2.len() && o2[q] as int == a as int;
            if p < j {
                assert(o2[p] == b);
            }
            if q < j {
                assert(o1[q] == a);
            }
            assert(j < p && j < q);
            assert(before(items[o1[j] as int], items[o1[p] as int]));
            assert(before(items[o2[j] as int], items[o2[q] as int]));
            assert(o1[j] < o1[p]);
            assert(o2[j] < o2[q]);
        }
    }
}

/// A stable order is unique: the relation and the items determine it.
pub proof fn lemma_stable_order_unique<A>(
    items: Seq<A>,
    o1: Seq<usize>,
    o2: Seq<usize>,
    before: spec_fn(A, A) -> bool,
)
    requires
        is_stable_order_by(items, o1, before),
        is_stable_order_by(items, o2, before),
    ensures
        o1 == o2,
{
    lemma_stable_orders_agree_upto(items, o1, o2, before, o1.len() as int);
    assert(o1 =~= o2);
}

} // verus!
