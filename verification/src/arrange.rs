//! Collections in order, without repetitions.

use vstd::prelude::*;

verus! {

/// `lt` orders the items strictly: nothing stands before itself, what stands
/// before something stands before all that follows it, and of two different
/// items one stands before the other.
pub open spec fn strict_order<A>(lt: spec_fn(A, A) -> bool) -> bool {
    &&& forall|a: A| !(#[trigger] lt(a, a))
    &&& forall|a: A, b: A, c: A| #[trigger] lt(a, b) && #[trigger] lt(b, c) ==> lt(a, c)
    &&& forall|a: A, b: A| a == b || #[trigger] lt(a, b) || lt(b, a)
}

/// `s` with `x` at its place, unless it is there already.
pub open spec fn insert_by<A>(s: Seq<A>, x: A, lt: spec_fn(A, A) -> bool) -> Seq<A>
    decreases s.len(),
{
    if s.len() == 0 {
        seq![x]
    } else if s[0] == x {
        s
    } else if lt(s[0], x) {
        seq![s[0]] + insert_by(s.skip(1), x, lt)
    } else {
        seq![x] + s
    }
}

/// The items in order, each of them once.
pub open spec fn arrange<A>(items: Seq<A>, lt: spec_fn(A, A) -> bool) -> Seq<A>
    decreases items.len(),
{
    if items.len() == 0 {
        seq![]
    } else {
        insert_by(arrange(items.drop_last(), lt), items.last(), lt)
    }
}

/// Every item stands before all that follow it.
pub open spec fn ordered<A>(s: Seq<A>, lt: spec_fn(A, A) -> bool) -> bool {
    forall|i: int, j: int| 0 <= i < j < s.len() ==> lt(#[trigger] s[i], #[trigger] s[j])
}

/// The two sequences hold the same items, in whatever order and number.
pub open spec fn same_items<A>(a: Seq<A>, b: Seq<A>) -> bool {
    forall|x: A| #[trigger] a.contains(x) <==> b.contains(x)
}

/// Items that stand before the place of `x` are passed over.
pub proof fn lemma_insert_passes<A>(s: Seq<A>, x: A, lt: spec_fn(A, A) -> bool, i: int)
    requires
        0 <= i <= s.len(),
        forall|j: int| 0 <= j < i ==> s[j] != x && lt(#[trigger] s[j], x),
    ensures
        insert_by(s, x, lt) == s.take(i) + insert_by(s.skip(i), x, lt),
    decreases i,
{
    if i == 0 {
        assert(s.skip(0) =~= s);
        assert(s.take(0) + insert_by(s, x, lt) =~= insert_by(s, x, lt));
    } else {
        let t = s.skip(1);
        assert forall|j: int| 0 <= j < i - 1 implies t[j] != x && lt(#[trigger] t[j], x) by {
            assert(t[j] == s[j + 1]);
        }
        lemma_insert_passes(t, x, lt, i - 1);
        assert(t.skip(i - 1) =~= s.skip(i));
        assert(s[0] != x && lt(s[0], x));
        assert(insert_by(s, x, lt) =~= seq![s[0]] + (t.take(i - 1) + insert_by(s.skip(i), x, lt)));
        assert(s.take(i) =~= seq![s[0]] + t.take(i - 1));
        assert(insert_by(s, x, lt) =~= s.take(i) + insert_by(s.skip(i), x, lt));
    }
}

/// Inserting adds the item, and nothing else.
pub proof fn lemma_insert_contains<A>(s: Seq<A>, x: A, lt: spec_fn(A, A) -> bool, y: A)
    ensures
        insert_by(s, x, lt).contains(y) <==> (s.contains(y) || y == x),
    decreases s.len(),
{
    let r = insert_by(s, x, lt);
    if s.len() == 0 {
        assert(r =~= seq![x]);
        assert(r[0] == x);
    } else if s[0] == x {
    } else if lt(s[0], x) {
        let t = s.skip(1);
        lemma_insert_contains(t, x, lt, y);
        let q = insert_by(t, x, lt);
        assert(r == seq![s[0]] + q);
        if r.contains(y) {
            let k = choose|k: int| 0 <= k < r.len() && r[k] == y;
            if k > 0 {
                assert(q[k - 1] == y);
                if t.contains(y) {
                    let m = choose|m: int| 0 <= m < t.len() && t[m] == y;
                    assert(s[m + 1] == y);
                }
            } else {
                assert(s[0] == y);
            }
        }
        if s.contains(y) || y == x {
            if s[0] == y {
                assert(r[0] == y);
            } else {
                if s.contains(y) {
                    let m = choose|m: int| 0 <= m < s.len() && s[m] == y;
                    assert(t[m - 1] == y);
                }
                let k = choose|k: int| 0 <= k < q.len() && q[k] == y;
                assert(r[k + 1] == y);
            }
        }
    } else {
        assert(r == seq![x] + s);
        assert(r[0] == x);
        if s.contains(y) {
            let m = choose|m: int| 0 <= m < s.len() && s[m] == y;
            assert(r[m + 1] == y);
        }
        if r.contains(y) && y != x {
            let k = choose|k: int| 0 <= k < r.len() && r[k] == y;
            assert(s[k - 1] == y);
        }
    }
}

/// Inserting keeps the order.
pub proof fn lemma_insert_ordered<A>(s: Seq<A>, x: A, lt: spec_fn(A, A) -> bool)
    requires
        strict_order(lt),
        ordered(s, lt),
    ensures
        ordered(insert_by(s, x, lt), lt),
    decreases s.len(),
{
    let r = insert_by(s, x, lt);
    if s.len() == 0 || s[0] == x {
    } else if lt(s[0], x) {
        let t = s.skip(1);
        assert forall|i: int, j: int| 0 <= i < j < t.len() implies lt(
            #[trigger] t[i],
            #[trigger] t[j],
        ) by {
            assert(t[i] == s[i + 1] && t[j] == s[j + 1]);
        }
        lemma_insert_ordered(t, x, lt);
        let q = insert_by(t, x, lt);
        assert forall|i: int, j: int| 0 <= i < j < r.len() implies lt(
            #[trigger] r[i],
            #[trigger] r[j],
        ) by {
            assert(r[j] == q[j - 1]);
            if i > 0 {
                assert(r[i] == q[i - 1]);
            } else {
                assert(q.contains(q[j - 1]));
                lemma_insert_contains(t, x, lt, q[j - 1]);
                if t.contains(q[j - 1]) {
                    let m = choose|m: int| 0 <= m < t.len() && t[m] == q[j - 1];
                    assert(lt(s[0], s[m + 1]));
                }
            }
        }
    } else {
        assert(lt(x, s[0]));
        assert forall|i: int, j: int| 0 <= i < j < r.len() implies lt(
            #[trigger] r[i],
            #[trigger] r[j],
        ) by {
            assert(r[j] == s[j - 1]);
            if i > 0 {
                assert(r[i] == s[i - 1]);
            } else if j > 1 {
                assert(lt(s[0], s[j - 1]));
            }
        }
    }
}

/// The arranged items stand in order.
pub proof fn lemma_arrange_ordered<A>(items: Seq<A>, lt: spec_fn(A, A) -> bool)
    requires
        strict_order(lt),
    ensures
        ordered(arrange(items, lt), lt),
    decreases items.len(),
{
    if items.len() > 0 {
        lemma_arrange_ordered(items.drop_last(), lt);
        lemma_insert_ordered(arrange(items.drop_last(), lt), items.last(), lt);
    }
}

/// The arranged items are the items.
pub proof fn lemma_arrange_contains<A>(items: Seq<A>, lt: spec_fn(A, A) -> bool, y: A)
    ensures
        arrange(items, lt).contains(y) <==> items.contains(y),
    decreases items.len(),
{
    if items.len() > 0 {
        let front = items.drop_last();
        lemma_arrange_contains(front, lt, y);
        lemma_insert_contains(arrange(front, lt), items.last(), lt, y);
        if items.contains(y) && y != items.last() {
            let k = choose|k: int| 0 <= k < items.len() && items[k] == y;
            assert(front[k] == y);
        }
        if front.contains(y) {
            let k = choose|k: int| 0 <= k < front.len() && front[k] == y;
            assert(items[k] == y);
        }
        assert(items[items.len() - 1] == items.last());
    }
}

/// An order leaves one arrangement only: ordered sequences of the same items are equal.
pub proof fn lemma_ordered_unique<A>(a: Seq<A>, b: Seq<A>, lt: spec_fn(A, A) -> bool)
    requires
        strict_order(lt),
        ordered(a, lt),
        ordered(b, lt),
        same_items(a, b),
    ensures
        a == b,
    decreases a.len(),
{
    if a.len() == 0 {
        if b.len() > 0 {
            assert(b.contains(b[0]));
            assert(a.contains(b[0]));
        }
        assert(a =~= b);
    } else {
        assert(a.contains(a[0]));
        assert(b.contains(a[0]));
        let k = choose|k: int| 0 <= k < b.len() && b[k] == a[0];
        assert(b.contains(b[0]));
        assert(a.contains(b[0]));
        let m = choose|m: int| 0 <= m < a.len() && a[m] == b[0];
        assert(k == 0 && m == 0) by {
            if k > 0 {
                assert(lt(b[0], b[k]));
                if m > 0 {
                    assert(lt(a[0], a[m]));
                }
            }
            if m > 0 {
                assert(lt(a[0], a[m]));
                if k > 0 {
                    assert(lt(b[0], b[k]));
                }
            }
        }
        let s = a.skip(1);
        let t = b.skip(1);
        assert forall|i: int, j: int| 0 <= i < j < s.len() implies lt(
            #[trigger] s[i],
            #[trigger] s[j],
        ) by {
            assert(s[i] == a[i + 1] && s[j] == a[j + 1]);
        }
        assert forall|i: int, j: int| 0 <= i < j < t.len() implies lt(
            #[trigger] t[i],
            #[trigger] t[j],
        ) by {
            assert(t[i] == b[i + 1] && t[j] == b[j + 1]);
        }
        assert forall|x: A| #[trigger] s.contains(x) <==> t.contains(x) by {
            if s.contains(x) {
                let i = choose|i: int| 0 <= i < s.len() && s[i] == x;
                assert(a[i + 1] == x);
                assert(a.contains(x));
                assert(lt(a[0], a[i + 1]));
                let j = choose|j: int| 0 <= j < b.len() && b[j] == x;
                assert(t[j - 1] == x);
            }
            if t.contains(x) {
                let i = choose|i: int| 0 <= i < t.len() && t[i] == x;
                assert(b[i + 1] == x);
                assert(b.contains(x));
                assert(lt(b[0], b[i + 1]));
                assert(a.contains(x));
                let j = choose|j: int| 0 <= j < a.len() && a[j] == x;
                assert(s[j - 1] == x);
            }
        }
        lemma_ordered_unique(s, t, lt);
        assert(a =~= seq![a[0]] + s);
        assert(b =~= seq![b[0]] + t);
    }
}

/// Sequences of the same items are arranged alike.
pub proof fn lemma_arrange_same_items<A>(a: Seq<A>, b: Seq<A>, lt: spec_fn(A, A) -> bool)
    requires
        strict_order(lt),
        same_items(a, b),
    ensures
        arrange(a, lt) == arrange(b, lt),
{
    lemma_arrange_ordered(a, lt);
    lemma_arrange_ordered(b, lt);
    assert forall|x: A| #[trigger] arrange(a, lt).contains(x) <==> arrange(b, lt).contains(x) by {
        lemma_arrange_contains(a, lt, x);
        lemma_arrange_contains(b, lt, x);
        assert(a.contains(x) <==> b.contains(x));
    }
    lemma_ordered_unique(arrange(a, lt), arrange(b, lt), lt);
}

} // verus!
