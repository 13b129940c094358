//! Lists in order, in which nothing occurs twice.
use crate::version::Order;
use vstd::prelude::*;

verus! {

/// Items that stand in an order.
pub trait Ordered: View + Sized {
    /// `a` comes before `b`.
    spec fn before(a: <Self as View>::V, b: <Self as View>::V) -> bool;

    /// Of two items only one comes before the other.
    proof fn one_way(a: <Self as View>::V, b: <Self as View>::V)
        requires
            Self::before(a, b),
        ensures
            !Self::before(b, a),
    ;

    /// How this item stands to another. What comes before an item also comes before everything
    /// after that item.
    fn stands(&self, other: &Self) -> (r: Order)
        ensures
            (r == Order::Same) == (self@ == other@),
            r == Order::Before ==> Self::before(self@, other@),
            r == Order::After ==> Self::before(other@, self@),
            r == Order::Before ==> forall|c: <Self as View>::V| #[trigger]
                Self::before(other@, c) ==> Self::before(self@, c),
    ;
}

/// The views of a list.
pub open spec fn views<K: View>(s: Seq<K>) -> Seq<<K as View>::V> {
    s.map_values(|k: K| k@)
}

/// Every item comes before all that follow it.
pub open spec fn is_sorted<K: Ordered>(s: Seq<<K as View>::V>) -> bool {
    forall|i: int, j: int| 0 <= i < j < s.len() ==> K::before(#[trigger] s[i], #[trigger] s[j])
}

/// Puts an item in its place in a sorted list, unless it is there.
pub fn insert<K: Ordered>(list: &mut Vec<K>, item: K)
    requires
        is_sorted::<K>(views(old(list)@)),
    ensures
        is_sorted::<K>(views(final(list)@)),
        forall|k: <K as View>::V| #[trigger]
            views(final(list)@).contains(k) == (views(old(list)@).contains(k) || k == item@),
{
    let ghost s = views(list@);
    let ghost new = item@;
    let mut p: usize = 0;
    while p < list.len()
        invariant_except_break
            forall|j: int| 0 <= j < p ==> K::before(#[trigger] s[j], new),
        invariant
            p <= list@.len(),
            s == views(list@),
            new == item@,
            *list == *old(list),
            is_sorted::<K>(s),
        ensures
            forall|j: int| 0 <= j < p ==> K::before(#[trigger] s[j], new),
            forall|j: int| p <= j < s.len() ==> K::before(new, #[trigger] s[j]),
        decreases list@.len() - p,
    {
        assert(s[p as int] == list@[p as int]@);
        match item.stands(&list[p]) {
            Order::Before => {
                assert forall|j: int| p <= j < s.len() implies K::before(new, #[trigger] s[j]) by {
                    if j > p {
                        assert(K::before(s[p as int], s[j]));
                    }
                }
                break;
            },
            Order::Same => {
                return;
            },
            Order::After => {},
        }
        p = p + 1;
    }
    list.insert(p, item);
    proof {
        let t = views(list@);
        assert(t == s.insert(p as int, new));
        assert forall|i: int, j: int| 0 <= i < j < t.len() implies K::before(
            #[trigger] t[i],
            #[trigger] t[j],
        ) by {
            if i != p {
                assert(t[i] == s[if i < p { i } else { i - 1 }]);
            }
            if j != p {
                assert(t[j] == s[if j < p { j } else { j - 1 }]);
            }
        }
        assert forall|k: <K as View>::V| #[trigger] t.contains(k) == (s.contains(k) || k == new) by {
            if s.contains(k) {
                let j = choose|j: int| 0 <= j < s.len() && s[j] == k;
                assert(t[if j < p { j } else { j + 1 }] == k);
            }
            if t.contains(k) {
                let j = choose|j: int| 0 <= j < t.len() && t[j] == k;
                if j != p {
                    assert(s[if j < p { j } else { j - 1 }] == k);
                }
            }
            assert(t[p as int] == new);
        }
    }
}

/// Nothing occurs twice in a sorted list.
pub proof fn law_sorted_is_distinct<K: Ordered>(s: Seq<<K as View>::V>)
    requires
        is_sorted::<K>(s),
    ensures
        s.no_duplicates(),
{
    assert forall|i: int, j: int| 0 <= i < s.len() && 0 <= j < s.len() && i != j implies s[i]
        != s[j] by {
        let a = if i < j { s[i] } else { s[j] };
        let b = if i < j { s[j] } else { s[i] };
        assert(K::before(a, b));
        K::one_way(a, b);
    }
}

/// The order leaves no choice: two sorted lists with the same items are the same list.
pub proof fn law_sorted_is_unique<K: Ordered>(s: Seq<<K as View>::V>, t: Seq<<K as View>::V>)
    requires
        is_sorted::<K>(s),
        is_sorted::<K>(t),
        forall|k: <K as View>::V| #[trigger] s.contains(k) == t.contains(k),
    ensures
        s == t,
    decreases s.len(),
{
    if s.len() == 0 {
        if t.len() > 0 {
            assert(t.contains(t[0]));
            assert(s.contains(t[0]));
        }
        assert(s == t);
    } else {
        assert(s.contains(s[0]));
        let j = choose|j: int| 0 <= j < t.len() && t[j] == s[0];
        assert(t.contains(t[0]));
        assert(s.contains(t[0]));
        let i = choose|i: int| 0 <= i < s.len() && s[i] == t[0];
        if j > 0 {
            assert(K::before(t[0], t[j]));
            K::one_way(t[0], s[0]);
            if i > 0 {
                assert(K::before(s[0], s[i]));
            }
        }
        assert(s[0] == t[0]);
        law_sorted_is_distinct::<K>(s);
        law_sorted_is_distinct::<K>(t);
        let s1 = s.drop_first();
        let t1 = t.drop_first();
        assert(forall|a: int| 0 <= a < s1.len() ==> s1[a] == s[a + 1]);
        assert(forall|a: int| 0 <= a < t1.len() ==> t1[a] == t[a + 1]);
        assert forall|k: <K as View>::V| #[trigger] s1.contains(k) == t1.contains(k) by {
            if s1.contains(k) {
                let a = choose|a: int| 0 <= a < s1.len() && s1[a] == k;
                assert(s[a + 1] == k);
                assert(s.contains(k));
                let b = choose|b: int| 0 <= b < t.len() && t[b] == k;
                assert(b != 0);
                assert(t1[b - 1] == k);
            }
            if t1.contains(k) {
                let a = choose|a: int| 0 <= a < t1.len() && t1[a] == k;
                assert(t[a + 1] == k);
                assert(t.contains(k));
                assert(s.contains(k));
                let b = choose|b: int| 0 <= b < s.len() && s[b] == k;
                assert(b != 0);
                assert(s1[b - 1] == k);
            }
        }
        assert forall|a: int, b: int| 0 <= a < b < s1.len() implies K::before(
            #[trigger] s1[a],
            #[trigger] s1[b],
        ) by {
            assert(K::before(s[a + 1], s[b + 1]));
        }
        assert forall|a: int, b: int| 0 <= a < b < t1.len() implies K::before(
            #[trigger] t1[a],
            #[trigger] t1[b],
        ) by {
            assert(K::before(t[a + 1], t[b + 1]));
        }
        law_sorted_is_unique::<K>(s1, t1);
        assert(s == seq![s[0]] + s1);
        assert(t == seq![t[0]] + t1);
    }
}

/// `at` holds the places among the first `n` that are chosen: all of them, each once, in order.
pub open spec fn picks(at: Seq<int>, n: int, chosen: spec_fn(int) -> bool) -> bool {
    &&& forall|i: int| 0 <= i < at.len() ==> 0 <= #[trigger] at[i] < n && chosen(at[i])
    &&& forall|i: int, j: int| 0 <= i < j < at.len() ==> #[trigger] at[i] < #[trigger] at[j]
    &&& forall|k: int| 0 <= k < n && #[trigger] chosen(k) ==> at.contains(k)
}

/// What is left of a list by a filter stands at the places that the filter chooses.
pub proof fn lemma_filter_picks<A>(s: Seq<A>, pred: spec_fn(A) -> bool) -> (at: Seq<int>)
    ensures
        picks(at, s.len() as int, |k: int| pred(s[k])),
        s.filter(pred).len() == at.len(),
        forall|i: int| 0 <= i < at.len() ==> #[trigger] s.filter(pred)[i] == s[at[i]],
    decreases s.len(),
{
    reveal(Seq::filter);
    if s.len() == 0 {
        seq![]
    } else {
        let rest = s.drop_last();
        let n = rest.len() as int;
        let before = lemma_filter_picks(rest, pred);
        let old_chosen = |k: int| pred(rest[k]);
        let chosen = |k: int| pred(s[k]);
        let at = if pred(s.last()) {
            before.push(n)
        } else {
            before
        };
        assert forall|k: int| 0 <= k < s.len() && #[trigger] chosen(k) implies at.contains(k) by {
            if k < n {
                assert(old_chosen(k));
                let j = choose|j: int| 0 <= j < before.len() && before[j] == k;
                assert(at[j] == k);
            } else {
                assert(at[before.len() as int] == k);
            }
        }
        assert forall|i: int| 0 <= i < at.len() implies 0 <= #[trigger] at[i] < s.len() && chosen(
            at[i],
        ) by {
            if i < before.len() {
                assert(old_chosen(before[i]));
                assert(rest[before[i]] == s[before[i]]);
            }
        }
        assert forall|i: int, j: int| 0 <= i < j < at.len() implies #[trigger] at[i]
            < #[trigger] at[j] by {
            if j == before.len() {
                assert(0 <= before[i] < n);
            }
        }
        assert forall|i: int| 0 <= i < at.len() implies #[trigger] s.filter(pred)[i] == s[at[i]] by {
            if i < before.len() {
                assert(rest.filter(pred)[i] == rest[before[i]]);
            }
        }
        at
    }
}

} // verus!
