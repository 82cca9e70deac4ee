use vstd::prelude::*;
use vstd::multiset::Multiset;
use vstd::seq_lib::{lemma_multiset_commutative, to_multiset_build};

verus! {

/// A chunk id with the position that its uploader declared for it.
pub type OrderEntry = (u128, u32);

/// Places `e` in `s` before the first entry of a strictly greater order, so
/// that entries of equal order keep their arrival order.
pub open spec fn insert_by_order(s: Seq<OrderEntry>, e: OrderEntry) -> Seq<OrderEntry>
    decreases s.len(),
{
    if s.len() == 0 {
        seq![e]
    } else if e.1 < s[0].1 {
        seq![e] + s
    } else {
        seq![s[0]] + insert_by_order(s.drop_first(), e)
    }
}

/// The entries of `s` ordered by declared order; a stable insertion sort.
pub open spec fn sort_by_order(s: Seq<OrderEntry>) -> Seq<OrderEntry>
    decreases s.len(),
{
    if s.len() == 0 {
        seq![]
    } else {
        insert_by_order(sort_by_order(s.drop_last()), s.last())
    }
}

pub open spec fn sorted_by_order(s: Seq<OrderEntry>) -> bool {
    forall|i: int, j: int| 0 <= i < j < s.len() ==> s[i].1 <= s[j].1
}

/// Where `insert_by_order` puts `e`: before the first entry of greater order.
pub open spec fn insert_pos(s: Seq<OrderEntry>, e: OrderEntry) -> int
    decreases s.len(),
{
    if s.len() == 0 {
        0
    } else if e.1 < s[0].1 {
        0
    } else {
        1 + insert_pos(s.drop_first(), e)
    }
}

proof fn lemma_insert_pos(s: Seq<OrderEntry>, e: OrderEntry)
    ensures
        0 <= insert_pos(s, e) <= s.len(),
        forall|k: int| 0 <= k < insert_pos(s, e) ==> !(e.1 < s[k].1),
        insert_pos(s, e) < s.len() ==> e.1 < s[insert_pos(s, e)].1,
    decreases s.len(),
{
    if s.len() > 0 && !(e.1 < s[0].1) {
        lemma_insert_pos(s.drop_first(), e);
        assert forall|k: int| 0 <= k < insert_pos(s, e) implies !(e.1 < s[k].1) by {
            if k > 0 {
                assert(s[k] == s.drop_first()[k - 1]);
            }
        }
    }
}

/// Inserting at the first entry of greater order splices `e` in there.
proof fn lemma_insert_at(s: Seq<OrderEntry>, e: OrderEntry, p: int)
    requires
        0 <= p <= s.len(),
        forall|k: int| 0 <= k < p ==> !(e.1 < s[k].1),
        p < s.len() ==> e.1 < s[p].1,
    ensures
        insert_by_order(s, e) == s.take(p) + seq![e] + s.skip(p),
    decreases p,
{
    if p == 0 {
        assert(s.take(0) + seq![e] + s.skip(0) =~= seq![e] + s);
        if s.len() == 0 {
            assert(seq![e] + s =~= seq![e]);
        }
    } else {
        let t = s.drop_first();
        assert forall|k: int| 0 <= k < p - 1 implies !(e.1 < t[k].1) by {
            assert(t[k] == s[k + 1]);
        }
        lemma_insert_at(t, e, p - 1);
        assert(seq![s[0]] + (t.take(p - 1) + seq![e] + t.skip(p - 1)) =~= s.take(p) + seq![e]
            + s.skip(p));
    }
}

/// Inserting into a sorted sequence keeps it sorted and adds `e` to its contents.
proof fn lemma_insert_sorted(s: Seq<OrderEntry>, e: OrderEntry)
    requires
        sorted_by_order(s),
    ensures
        sorted_by_order(insert_by_order(s, e)),
        insert_by_order(s, e).to_multiset() == s.to_multiset().insert(e),
        insert_by_order(s, e).len() == s.len() + 1,
{
    lemma_insert_pos(s, e);
    let p = insert_pos(s, e);
    lemma_insert_at(s, e, p);
    let r = insert_by_order(s, e);
    assert forall|i: int, j: int| 0 <= i < j < r.len() implies r[i].1 <= r[j].1 by {
        if j < p {
            assert(r[i] == s[i] && r[j] == s[j]);
        } else if j == p {
            assert(r[j] == e);
            assert(r[i] == s[i]);
        } else if i < p {
            assert(r[i] == s[i] && r[j] == s[j - 1]);
        } else if i == p {
            assert(r[i] == e && r[j] == s[j - 1]);
            assert(s[p].1 <= s[j - 1].1);
        } else {
            assert(r[i] == s[i - 1] && r[j] == s[j - 1]);
        }
    }
    let a = s.take(p);
    let b = s.skip(p);
    assert(s =~= a + b);
    lemma_multiset_commutative(a, b);
    assert(a + seq![e] =~= a.push(e));
    to_multiset_build(a, e);
    lemma_multiset_commutative(a.push(e), b);
    assert(r.to_multiset() =~= s.to_multiset().insert(e));
}

/// The sort yields a sorted rearrangement of its input.
pub proof fn lemma_sort_by_order(s: Seq<OrderEntry>)
    ensures
        sorted_by_order(sort_by_order(s)),
        sort_by_order(s).to_multiset() == s.to_multiset(),
        sort_by_order(s).len() == s.len(),
    decreases s.len(),
{
    if s.len() > 0 {
        lemma_sort_by_order(s.drop_last());
        lemma_insert_sorted(sort_by_order(s.drop_last()), s.last());
        assert(s.drop_last().push(s.last()) =~= s);
        to_multiset_build(s.drop_last(), s.last());
    } else {
        assert(s =~= seq![]);
    }
}

/// No two entries share a declared order.
pub open spec fn orders_distinct(s: Seq<OrderEntry>) -> bool {
    forall|i: int, j: int| 0 <= i < j < s.len() ==> s[i].1 != s[j].1
}

/// Each entry occurs at most once, and no two entries share a declared order.
pub open spec fn bag_orders_distinct(m: Multiset<OrderEntry>) -> bool {
    &&& forall|x: OrderEntry| #[trigger] m.count(x) <= 1
    &&& forall|x: OrderEntry, y: OrderEntry|
        m.contains(x) && m.contains(y) && x.1 == y.1 ==> x == y
}

pub proof fn lemma_bag_orders_distinct(s: Seq<OrderEntry>)
    requires
        orders_distinct(s),
    ensures
        bag_orders_distinct(s.to_multiset()),
{
    broadcast use vstd::seq_lib::group_to_multiset_ensures;

    assert(s.no_duplicates()) by {
        assert forall|i: int, j: int| 0 <= i < s.len() && 0 <= j < s.len() && i != j implies s[i]
            != s[j] by {
            if i < j {
                assert(s[i].1 != s[j].1);
            } else {
                assert(s[j].1 != s[i].1);
            }
        }
    }
    s.lemma_multiset_has_no_duplicates();
    assert forall|x: OrderEntry| #[trigger] s.to_multiset().count(x) <= 1 by {
        if s.to_multiset().count(x) > 0 {
            assert(s.to_multiset().contains(x));
        }
    }
    assert forall|x: OrderEntry, y: OrderEntry|
        s.to_multiset().contains(x) && s.to_multiset().contains(y) && x.1 == y.1 implies x == y by {
        assert(s.contains(x));
        assert(s.contains(y));
        let i = choose|i: int| 0 <= i < s.len() && s[i] == x;
        let j = choose|j: int| 0 <= j < s.len() && s[j] == y;
        if i < j {
            assert(s[i].1 != s[j].1);
        } else if j < i {
            assert(s[j].1 != s[i].1);
        }
    }
}

/// Two sorted arrangements of the same entries are equal when no two entries
/// share a declared order.
pub proof fn lemma_sorted_unique(a: Seq<OrderEntry>, b: Seq<OrderEntry>)
    requires
        sorted_by_order(a),
        sorted_by_order(b),
        a.to_multiset() == b.to_multiset(),
        bag_orders_distinct(a.to_multiset()),
    ensures
        a == b,
    decreases a.len(),
{
    broadcast use vstd::seq_lib::group_to_multiset_ensures;
    broadcast use vstd::multiset::group_multiset_axioms;

    assert(a.len() == a.to_multiset().len());
    assert(b.len() == b.to_multiset().len());
    if a.len() == 0 {
        assert(a =~= b);
    } else {
        assert(a.contains(a[0]));
        assert(b.contains(b[0]));
        assert(b.to_multiset().count(a[0]) > 0);
        assert(a.to_multiset().count(b[0]) > 0);
        assert(b.contains(a[0]));
        assert(a.contains(b[0]));
        let i = choose|i: int| 0 <= i < a.len() && a[i] == b[0];
        let j = choose|j: int| 0 <= j < b.len() && b[j] == a[0];
        assert(a[0].1 <= a[i].1);
        assert(b[0].1 <= b[j].1);
        assert(a[0].1 == b[0].1);
        assert(a.to_multiset().contains(a[0]));
        assert(a.to_multiset().contains(b[0]));
        assert(a[0] == b[0]);
        assert(a.remove(0) =~= a.drop_first());
        assert(b.remove(0) =~= b.drop_first());
        let ra = a.drop_first();
        let rb = b.drop_first();
        assert(ra.to_multiset() =~= a.to_multiset().remove(a[0]));
        assert(rb.to_multiset() =~= b.to_multiset().remove(b[0]));
        assert forall|x: OrderEntry, y: OrderEntry|
            ra.to_multiset().contains(x) && ra.to_multiset().contains(y) && x.1 == y.1 implies x
            == y by {
            assert(a.to_multiset().contains(x));
            assert(a.to_multiset().contains(y));
        }
        lemma_sorted_unique(ra, rb);
        assert(a =~= seq![a[0]] + ra);
        assert(b =~= seq![b[0]] + rb);
    }
}

/// Sorts the entries by declared order, keeping entries of equal order in the
/// order they came.
pub fn sort_entries(v: &Vec<OrderEntry>) -> (r: Vec<OrderEntry>)
    ensures
        r@ == sort_by_order(v@),
{
    let mut r: Vec<OrderEntry> = Vec::new();
    let mut k: usize = 0;
    while k < v.len()
        invariant
            k <= v@.len(),
            r@ == sort_by_order(v@.take(k as int)),
            r@.len() == k,
        decreases v@.len() - k,
    {
        let e = v[k];
        proof {
            assert(v@.take(k + 1).drop_last() =~= v@.take(k as int));
            lemma_sort_by_order(v@.take(k as int));
        }
        let mut i: usize = 0;
        while i < r.len() && !(e.1 < r[i].1)
            invariant
                i <= r@.len(),
                forall|j: int| 0 <= j < i ==> !(e.1 < r@[j].1),
            decreases r@.len() - i,
        {
            i = i + 1;
        }
        proof {
            lemma_insert_at(r@, e, i as int);
        }
        r.insert(i, e);
        assert(r@ =~= sort_by_order(v@.take(k + 1)));
        k = k + 1;
    }
    assert(v@.take(v@.len() as int) =~= v@);
    r
}

} // verus!
