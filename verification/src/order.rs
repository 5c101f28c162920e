//! Texts in order: comparison, sorting, and dropping repeats.
use vstd::prelude::*;
use vstd::string::*;

use crate::text::{chars_of, same, Parts};

verus! {

/// Whether a text comes before another in lexicographic order.
pub open spec fn text_lt(a: Seq<char>, b: Seq<char>) -> bool
    decreases a.len(),
{
    if b.len() == 0 {
        false
    } else if a.len() == 0 {
        true
    } else if a[0] != b[0] {
        a[0] < b[0]
    } else {
        text_lt(a.subrange(1, a.len() as int), b.subrange(1, b.len() as int))
    }
}

/// Whether a text comes before another in lexicographic order.
pub fn is_before(a: &str, b: &str) -> (r: bool)
    ensures
        r == text_lt(a@, b@),
{
    let x = chars_of(a);
    let y = chars_of(b);
    let n: usize = x.len();
    let m: usize = y.len();
    let mut i: usize = 0;
    proof {
        assert(x@.subrange(0, n as int) =~= a@);
        assert(y@.subrange(0, m as int) =~= b@);
    }
    while i < n && i < m
        invariant
            i <= n,
            i <= m,
            n == x@.len(),
            m == y@.len(),
            text_lt(a@, b@) == text_lt(
                x@.subrange(i as int, n as int),
                y@.subrange(i as int, m as int),
            ),
        decreases n - i,
    {
        let ghost s = x@.subrange(i as int, n as int);
        let ghost t = y@.subrange(i as int, m as int);
        if x[i] != y[i] {
            return x[i] < y[i];
        }
        proof {
            assert(s.subrange(1, s.len() as int) =~= x@.subrange(i + 1, n as int));
            assert(t.subrange(1, t.len() as int) =~= y@.subrange(i + 1, m as int));
        }
        i = i + 1;
    }
    i < m
}

/// No text comes before itself.
pub proof fn law_text_lt_irreflexive(a: Seq<char>)
    ensures
        !text_lt(a, a),
    decreases a.len(),
{
    if a.len() > 0 {
        law_text_lt_irreflexive(a.subrange(1, a.len() as int));
    }
}

/// Of two different texts exactly one comes before the other.
pub proof fn law_text_lt_total(a: Seq<char>, b: Seq<char>)
    ensures
        a != b ==> text_lt(a, b) != text_lt(b, a),
    decreases a.len(),
{
    if a != b && a.len() > 0 && b.len() > 0 && a[0] == b[0] {
        let s = a.subrange(1, a.len() as int);
        let t = b.subrange(1, b.len() as int);
        if s == t {
            assert(a =~= seq![a[0]] + s);
            assert(b =~= seq![b[0]] + t);
        }
        law_text_lt_total(s, t);
    } else if a.len() == 0 && b.len() == 0 {
        assert(a =~= b);
    }
}

/// The order of texts is transitive.
pub proof fn law_text_lt_transitive(a: Seq<char>, b: Seq<char>, c: Seq<char>)
    requires
        text_lt(a, b),
        text_lt(b, c),
    ensures
        text_lt(a, c),
    decreases a.len(),
{
    if a.len() > 0 && b.len() > 0 && c.len() > 0 && a[0] == b[0] && b[0] == c[0] {
        law_text_lt_transitive(
            a.subrange(1, a.len() as int),
            b.subrange(1, b.len() as int),
            c.subrange(1, c.len() as int),
        );
    }
}

/// A text put into a sorted list, behind every text that it does not come before.
pub open spec fn insert_text(list: Seq<Seq<char>>, x: Seq<char>) -> Seq<Seq<char>>
    decreases list.len(),
{
    if list.len() == 0 || !text_lt(x, list.last()) {
        list.push(x)
    } else {
        insert_text(list.drop_last(), x).push(list.last())
    }
}

/// The first `n` texts in order.
pub open spec fn sorted_texts(list: Seq<Seq<char>>, n: int) -> Seq<Seq<char>>
    decreases n,
{
    if n <= 0 || n > list.len() {
        Seq::empty()
    } else {
        insert_text(sorted_texts(list, n - 1), list[n - 1])
    }
}

/// A list in which no text comes before the one in front of it.
pub open spec fn in_order(list: Seq<Seq<char>>) -> bool {
    forall|i: int, j: int| 0 <= i < j < list.len() ==> !text_lt(#[trigger] list[j], #[trigger] list[i])
}

proof fn lemma_insert_keeps_order(list: Seq<Seq<char>>, x: Seq<char>)
    requires
        in_order(list),
    ensures
        in_order(insert_text(list, x)),
        insert_text(list, x).to_multiset() =~= list.to_multiset().insert(x),
        insert_text(list, x).len() == list.len() + 1,
        forall|k: int|
            0 <= k < insert_text(list, x).len() ==> (#[trigger] insert_text(list, x)[k] == x
                || list.contains(insert_text(list, x)[k])),
    decreases list.len(),
{
    broadcast use vstd::seq_lib::group_to_multiset_ensures;

    let r = insert_text(list, x);
    if list.len() == 0 || !text_lt(x, list.last()) {
        assert(r.to_multiset() =~= list.to_multiset().insert(x));
        assert forall|i: int, j: int| 0 <= i < j < r.len() implies !text_lt(
            #[trigger] r[j],
            #[trigger] r[i],
        ) by {
            if j == r.len() - 1 && i < list.len() - 1 {
                if text_lt(x, list[i]) {
                    law_text_lt_total(list[i], list.last());
                    if list[i] == list.last() {
                    } else {
                        assert(!text_lt(list[list.len() - 1], list[i]));
                        law_text_lt_transitive(x, list[i], list.last());
                    }
                }
            }
        }
        assert forall|k: int| 0 <= k < r.len() implies (#[trigger] r[k] == x || list.contains(
            r[k],
        )) by {
            if k < list.len() {
                assert(list[k] == r[k]);
            }
        }
    } else {
        let d = list.drop_last();
        assert(in_order(d)) by {
            assert forall|i: int, j: int| 0 <= i < j < d.len() implies !text_lt(
                #[trigger] d[j],
                #[trigger] d[i],
            ) by {
                assert(d[i] == list[i] && d[j] == list[j]);
            }
        }
        lemma_insert_keeps_order(d, x);
        let s = insert_text(d, x);
        assert(r =~= s.push(list.last()));
        assert(list =~= d.push(list.last()));
        assert(list.to_multiset() =~= d.to_multiset().insert(list.last()));
        assert(r.to_multiset() =~= s.to_multiset().insert(list.last()));
        assert forall|i: int, j: int| 0 <= i < j < r.len() implies !text_lt(
            #[trigger] r[j],
            #[trigger] r[i],
        ) by {
            if j == r.len() - 1 {
                assert(r[i] == s[i]);
                if s[i] == x {
                    law_text_lt_total(x, list.last());
                    if x == list.last() {
                        law_text_lt_irreflexive(x);
                    }
                } else {
                    assert(d.contains(s[i]));
                    let k = choose|k: int| 0 <= k < d.len() && d[k] == s[i];
                    assert(list[k] == d[k]);
                    assert(!text_lt(list[list.len() - 1], list[k]));
                }
            } else {
                assert(r[i] == s[i] && r[j] == s[j]);
            }
        }
        assert forall|k: int| 0 <= k < r.len() implies (#[trigger] r[k] == x || list.contains(
            r[k],
        )) by {
            if k < s.len() {
                assert(r[k] == s[k]);
                if s[k] != x {
                    let q = choose|q: int| 0 <= q < d.len() && d[q] == s[k];
                    assert(list[q] == d[q]);
                }
            } else {
                assert(list[list.len() - 1] == r[k]);
            }
        }
    }
}

/// Sorting a list puts it in order and keeps each text as often as it was there.
pub proof fn law_sorted_texts(list: Seq<Seq<char>>, n: int)
    requires
        0 <= n <= list.len(),
    ensures
        in_order(sorted_texts(list, n)),
        sorted_texts(list, n).to_multiset() =~= list.take(n).to_multiset(),
    decreases n,
{
    broadcast use vstd::seq_lib::group_to_multiset_ensures;

    if n > 0 {
        law_sorted_texts(list, n - 1);
        lemma_insert_keeps_order(sorted_texts(list, n - 1), list[n - 1]);
        assert(list.take(n) =~= list.take(n - 1).push(list[n - 1]));
    } else {
        assert(list.take(0) =~= Seq::<Seq<char>>::empty());
    }
}

/// Two lists that hold each text as often as the other are the same in order.
pub proof fn law_sorting_forgets_the_order(a: Seq<Seq<char>>, b: Seq<Seq<char>>)
    requires
        a.to_multiset() == b.to_multiset(),
    ensures
        sorted_texts(a, a.len() as int) == sorted_texts(b, b.len() as int),
{
    let leq = |x: Seq<char>, y: Seq<char>| !text_lt(y, x);
    law_sorted_texts(a, a.len() as int);
    law_sorted_texts(b, b.len() as int);
    assert(a.take(a.len() as int) =~= a);
    assert(b.take(b.len() as int) =~= b);
    let x = sorted_texts(a, a.len() as int);
    let y = sorted_texts(b, b.len() as int);
    assert(vstd::relations::total_ordering(leq)) by {
        assert forall|p: Seq<char>| #[trigger] leq(p, p) by {
            law_text_lt_irreflexive(p);
        }
        assert forall|p: Seq<char>, q: Seq<char>| #[trigger] leq(p, q) && #[trigger] leq(
            q,
            p,
        ) implies p == q by {
            law_text_lt_total(p, q);
        }
        assert forall|p: Seq<char>, q: Seq<char>, r: Seq<char>| #[trigger]
            leq(p, q) && #[trigger] leq(q, r) implies leq(p, r) by {
            law_text_lt_total(p, q);
            law_text_lt_total(q, r);
            if text_lt(r, p) && p != q && q != r {
                law_text_lt_transitive(p, q, r);
                law_text_lt_transitive(p, r, p);
                law_text_lt_irreflexive(p);
            }
        }
        assert forall|p: Seq<char>, q: Seq<char>| #[trigger] leq(p, q) || #[trigger] leq(q, p) by {
            law_text_lt_total(p, q);
        }
    }
    assert(vstd::relations::sorted_by(x, leq));
    assert(vstd::relations::sorted_by(y, leq));
    vstd::seq_lib::lemma_sorted_unique(x, y, leq);
}

/// A list without the texts that repeat the one in front of them.
pub open spec fn without_repeats(list: Seq<Seq<char>>) -> Seq<Seq<char>>
    decreases list.len(),
{
    if list.len() <= 1 {
        list
    } else if list.last() == list[list.len() - 2] {
        without_repeats(list.drop_last())
    } else {
        without_repeats(list.drop_last()).push(list.last())
    }
}

proof fn lemma_insert_at(list: Seq<Seq<char>>, x: Seq<char>, k: int)
    requires
        0 <= k <= list.len(),
        forall|j: int| k <= j < list.len() ==> text_lt(x, #[trigger] list[j]),
        k > 0 ==> !text_lt(x, list[k - 1]),
    ensures
        insert_text(list, x) == list.insert(k, x),
    decreases list.len(),
{
    if k == list.len() {
        assert(list.insert(k, x) =~= list.push(x));
    } else {
        let d = list.drop_last();
        assert forall|j: int| k <= j < d.len() implies text_lt(x, #[trigger] d[j]) by {
            assert(d[j] == list[j]);
        }
        assert(k > 0 ==> d[k - 1] == list[k - 1]);
        lemma_insert_at(d, x, k);
        assert(list.insert(k, x) =~= d.insert(k, x).push(list.last()));
    }
}

/// Sorts a list of texts.
pub fn sort_parts(list: &Parts) -> (r: Parts)
    ensures
        r@ == sorted_texts(list@, list@.len() as int),
{
    let n: usize = list.len();
    let mut out = Parts::new();
    let mut i: usize = 0;
    while i < n
        invariant
            i <= n,
            n == list@.len(),
            out@ == sorted_texts(list@, i as int),
        decreases n - i,
    {
        let x = list.get(i);
        let mut k: usize = out.items.len();
        while k > 0 && is_before(x, &out.items[k - 1])
            invariant
                k <= out@.len(),
                x@ == list@[i as int],
                forall|j: int| k <= j < out@.len() ==> text_lt(x@, #[trigger] out@[j]),
            decreases k,
        {
            k = k - 1;
        }
        let ghost before = out@;
        proof {
            lemma_insert_at(before, x@, k as int);
        }
        out.items.insert(k, x.clone());
        proof {
            assert(out@ =~= before.insert(k as int, x@));
        }
        i = i + 1;
    }
    out
}

/// A list without the texts that repeat the one in front of them.
pub fn dedup_parts(list: &Parts) -> (r: Parts)
    ensures
        r@ == without_repeats(list@),
{
    let n: usize = list.len();
    let mut out = Parts::new();
    let mut i: usize = 0;
    while i < n
        invariant
            i <= n,
            n == list@.len(),
            out@ =~= without_repeats(list@.take(i as int)),
        decreases n - i,
    {
        proof {
            assert(list@.take(i + 1).drop_last() =~= list@.take(i as int));
            assert(list@.take(i + 1).last() == list@[i as int]);
        }
        if i == 0 {
            proof {
                assert(list@.take(0) =~= Seq::<Seq<char>>::empty());
                assert(list@.take(1) =~= Seq::<Seq<char>>::empty().push(list@[0]));
            }
            out.push(list.get(i).clone());
        } else {
            proof {
                assert(list@.take(i + 1)[i - 1] == list@[i - 1]);
            }
            if !same(list.get(i), list.get(i - 1)) {
                out.push(list.get(i).clone());
            }
        }
        i = i + 1;
    }
    proof {
        assert(list@.take(n as int) =~= list@);
    }
    out
}

} // verus!
