//! Byte strings in dictionary order, and lists kept in that order.

use vstd::prelude::*;
use crate::types::Did;

verus! {

/// Whether `a` comes before `b` in dictionary order: at the first place
/// where they differ `a` has the smaller byte, or `a` ends there.
pub open spec fn lex_less(a: Seq<u8>, b: Seq<u8>) -> bool
    decreases a.len(),
{
    if b.len() == 0 {
        false
    } else if a.len() == 0 {
        true
    } else if a[0] != b[0] {
        a[0] < b[0]
    } else {
        lex_less(a.drop_first(), b.drop_first())
    }
}

/// Whether each item of `list` comes before the next.
pub open spec fn strictly_sorted(list: Seq<Seq<u8>>) -> bool {
    forall|i: int, j: int| 0 <= i < j < list.len() ==> lex_less(list[i], list[j])
}

/// Whether `list` holds the items of `items`, each once, in dictionary order.
pub open spec fn lists_ascending(list: Seq<Seq<u8>>, items: Set<Seq<u8>>) -> bool {
    &&& strictly_sorted(list)
    &&& forall|d: Seq<u8>| list.contains(d) <==> items.contains(d)
}

/// The items of `items` in dictionary order, each once.
pub open spec fn ascending(items: Set<Seq<u8>>) -> Seq<Seq<u8>> {
    choose|list: Seq<Seq<u8>>| lists_ascending(list, items)
}

/// No byte string comes before itself.
pub proof fn lemma_lex_irreflexive(a: Seq<u8>)
    ensures
        !lex_less(a, a),
    decreases a.len(),
{
    if a.len() > 0 {
        lemma_lex_irreflexive(a.drop_first());
    }
}

/// Dictionary order is transitive.
pub proof fn lemma_lex_transitive(a: Seq<u8>, b: Seq<u8>, c: Seq<u8>)
    requires
        lex_less(a, b),
        lex_less(b, c),
    ensures
        lex_less(a, c),
    decreases a.len(),
{
    if a.len() > 0 && a[0] == b[0] && b[0] == c[0] {
        lemma_lex_transitive(a.drop_first(), b.drop_first(), c.drop_first());
    }
}

/// Of two different byte strings one comes before the other.
pub proof fn lemma_lex_total(a: Seq<u8>, b: Seq<u8>)
    ensures
        a == b || lex_less(a, b) || lex_less(b, a),
    decreases a.len(),
{
    if a.len() == 0 || b.len() == 0 {
        if a.len() == 0 && b.len() == 0 {
            assert(a =~= b);
        }
    } else if a[0] == b[0] {
        lemma_lex_total(a.drop_first(), b.drop_first());
        if a.drop_first() == b.drop_first() {
            assert(a =~= seq![a[0]] + a.drop_first());
            assert(b =~= seq![b[0]] + b.drop_first());
        }
    }
}

/// Two lists that hold the same items in dictionary order are the same list.
pub proof fn lemma_ascending_unique(s: Seq<Seq<u8>>, t: Seq<Seq<u8>>, items: Set<Seq<u8>>)
    requires
        lists_ascending(s, items),
        lists_ascending(t, items),
    ensures
        s == t,
    decreases s.len(),
{
    if s.len() == 0 {
        if t.len() > 0 {
            assert(t.contains(t[0]));
            assert(s.contains(t[0]));
        }
        assert(s =~= t);
    } else {
        let top = s.last();
        assert(s.contains(top));
        assert(t.contains(top));
        let k = choose|k: int| 0 <= k < t.len() && t[k] == top;
        if k < t.len() - 1 {
            let over = t.last();
            assert(t.contains(over));
            assert(s.contains(over));
            let m = choose|m: int| 0 <= m < s.len() && s[m] == over;
            assert(lex_less(top, over));
            if m < s.len() - 1 {
                assert(lex_less(over, top));
                lemma_lex_transitive(top, over, top);
            }
            lemma_lex_irreflexive(top);
        }
        let rest = items.remove(top);
        assert forall|d: Seq<u8>| s.drop_last().contains(d) <==> rest.contains(d) by {
            if s.drop_last().contains(d) {
                let i = choose|i: int| 0 <= i < s.drop_last().len() && s.drop_last()[i] == d;
                assert(s[i] == d);
                assert(s.contains(d));
                assert(lex_less(s[i], top));
                lemma_lex_irreflexive(top);
            }
            if rest.contains(d) {
                assert(s.contains(d));
                let i = choose|i: int| 0 <= i < s.len() && s[i] == d;
                assert(s.drop_last()[i] == d);
            }
        }
        assert forall|d: Seq<u8>| t.drop_last().contains(d) <==> rest.contains(d) by {
            if t.drop_last().contains(d) {
                let i = choose|i: int| 0 <= i < t.drop_last().len() && t.drop_last()[i] == d;
                assert(t[i] == d);
                assert(t.contains(d));
                assert(lex_less(t[i], top));
                lemma_lex_irreflexive(top);
            }
            if rest.contains(d) {
                assert(t.contains(d));
                let i = choose|i: int| 0 <= i < t.len() && t[i] == d;
                assert(t.drop_last()[i] == d);
            }
        }
        assert(strictly_sorted(s.drop_last())) by {
            assert forall|i: int, j: int| 0 <= i < j < s.drop_last().len() implies lex_less(
                s.drop_last()[i],
                s.drop_last()[j],
            ) by {
                assert(lex_less(s[i], s[j]));
            }
        }
        assert(strictly_sorted(t.drop_last())) by {
            assert forall|i: int, j: int| 0 <= i < j < t.drop_last().len() implies lex_less(
                t.drop_last()[i],
                t.drop_last()[j],
            ) by {
                assert(lex_less(t[i], t[j]));
            }
        }
        lemma_ascending_unique(s.drop_last(), t.drop_last(), rest);
        assert(s =~= s.drop_last().push(top));
        assert(t =~= t.drop_last().push(top));
    }
}

/// A list that holds the items of `items` in dictionary order is
/// [`ascending`] of them.
pub proof fn lemma_is_ascending(list: Seq<Seq<u8>>, items: Set<Seq<u8>>)
    requires
        lists_ascending(list, items),
    ensures
        list == ascending(items),
{
    lemma_ascending_unique(list, ascending(items), items);
}

/// Whether `a` comes before `b` in dictionary order.
pub fn bytes_less(a: &Did, b: &Did) -> (less: bool)
    ensures
        less == lex_less(a.deep_view(), b.deep_view()),
{
    let mut i: usize = 0;
    assert(a.deep_view().skip(0) =~= a.deep_view());
    assert(b.deep_view().skip(0) =~= b.deep_view());
    while i < a.len() && i < b.len()
        invariant
            i <= a@.len(),
            i <= b@.len(),
            lex_less(a.deep_view(), b.deep_view()) == lex_less(
                a.deep_view().skip(i as int),
                b.deep_view().skip(i as int),
            ),
        decreases a@.len() - i,
    {
        assert(a.deep_view().skip(i as int).drop_first() =~= a.deep_view().skip(i + 1));
        assert(b.deep_view().skip(i as int).drop_first() =~= b.deep_view().skip(i + 1));
        if a[i] != b[i] {
            return a[i] < b[i];
        }
        i += 1;
    }
    i < b.len()
}

/// Puts `did` at its place in the sorted `list`, unless it is there already.
pub fn insert_sorted(list: &mut Vec<Did>, did: Did)
    requires
        strictly_sorted(old(list).deep_view()),
    ensures
        strictly_sorted(final(list).deep_view()),
        forall|d: Seq<u8>|
            final(list).deep_view().contains(d) <==> (old(list).deep_view().contains(d) || d
                == did.deep_view()),
        old(list)@.len() <= final(list)@.len() <= old(list)@.len() + 1,
{
    let ghost before = list.deep_view();
    let ghost x = did.deep_view();
    let mut p: usize = 0;
    while p < list.len() && bytes_less(&list[p], &did)
        invariant
            p <= list@.len(),
            list.deep_view() == before,
            did.deep_view() == x,
            forall|j: int| 0 <= j < p ==> lex_less(before[j], x),
        decreases list@.len() - p,
    {
        p += 1;
    }
    if p < list.len() && crate::table::Key::same(&list[p], &did) {
        assert(before[p as int] == x);
        return ;
    }
    list.insert(p, did);
    proof {
        let after = list.deep_view();
        assert(after =~= before.insert(p as int, x));
        assert forall|j: int| p <= j < before.len() implies lex_less(x, before[j]) by {
            lemma_lex_total(x, before[p as int]);
            if p < j {
                assert(lex_less(before[p as int], before[j]));
                lemma_lex_transitive(x, before[p as int], before[j]);
            }
        }
        assert forall|i: int, j: int| 0 <= i < j < after.len() implies lex_less(
            after[i],
            after[j],
        ) by {
            if j < p {
                assert(lex_less(before[i], before[j]));
            } else if j == p {
            } else if i < p {
                assert(lex_less(before[i], before[j - 1]));
            } else if i == p {
            } else {
                assert(lex_less(before[i - 1], before[j - 1]));
            }
        }
        assert forall|d: Seq<u8>| after.contains(d) <==> (before.contains(d) || d == x) by {
            if after.contains(d) {
                let i = choose|i: int| 0 <= i < after.len() && after[i] == d;
                if i < p {
                    assert(before[i] == d);
                } else if i > p {
                    assert(before[i - 1] == d);
                }
            }
            if before.contains(d) {
                let i = choose|i: int| 0 <= i < before.len() && before[i] == d;
                if i < p {
                    assert(after[i] == d);
                } else {
                    assert(after[i + 1] == d);
                }
            }
            if d == x {
                assert(after[p as int] == d);
            }
        }
    }
}

} // verus!
