//! Orders used by the cache and the signatures: text ordered by code point
//! (for UTF-8 text this is the byte order that `str` comparison uses), and
//! stable orderings of items by a key.

use vstd::prelude::*;
use crate::text::vecs_view;

verus! {

/// Code-point lexicographic order on text: `a` sorts strictly before `b`.
pub open spec fn text_lt(a: Seq<char>, b: Seq<char>) -> bool
    decreases a.len(),
{
    if a.len() == 0 {
        b.len() > 0
    } else if b.len() == 0 {
        false
    } else if a[0] != b[0] {
        a[0] < b[0]
    } else {
        text_lt(a.drop_first(), b.drop_first())
    }
}

pub proof fn lemma_text_lt_irreflexive(a: Seq<char>)
    ensures
        !text_lt(a, a),
    decreases a.len(),
{
    if a.len() > 0 {
        lemma_text_lt_irreflexive(a.drop_first());
    }
}

pub proof fn lemma_text_lt_transitive(a: Seq<char>, b: Seq<char>, c: Seq<char>)
    requires
        text_lt(a, b),
        text_lt(b, c),
    ensures
        text_lt(a, c),
    decreases a.len(),
{
    if a.len() > 0 && b.len() > 0 && c.len() > 0 {
        if a[0] == b[0] && b[0] == c[0] {
            lemma_text_lt_transitive(a.drop_first(), b.drop_first(), c.drop_first());
        }
    }
}

pub proof fn lemma_text_lt_total(a: Seq<char>, b: Seq<char>)
    ensures
        a =~= b || text_lt(a, b) || text_lt(b, a),
    decreases a.len(),
{
    if a.len() > 0 && b.len() > 0 && a[0] == b[0] {
        lemma_text_lt_total(a.drop_first(), b.drop_first());
        if a.drop_first() =~= b.drop_first() {
            assert(a =~= seq![a[0]] + a.drop_first());
            assert(b =~= seq![b[0]] + b.drop_first());
        }
    }
}

pub proof fn lemma_text_lt_asymmetric(a: Seq<char>, b: Seq<char>)
    requires
        text_lt(a, b),
    ensures
        !text_lt(b, a),
{
    if text_lt(b, a) {
        lemma_text_lt_transitive(a, b, a);
        lemma_text_lt_irreflexive(a);
    }
}

/// Decides [`text_lt`].
pub fn chars_lt(a: &Vec<char>, b: &Vec<char>) -> (r: bool)
    ensures
        r == text_lt(a@, b@),
{
    let mut i: usize = 0;
    proof {
        assert(a@.skip(0) =~= a@);
        assert(b@.skip(0) =~= b@);
    }
    while i < a.len() && i < b.len()
        invariant
            i <= a.len(),
            i <= b.len(),
            a@.subrange(0, i as int) == b@.subrange(0, i as int),
            text_lt(a@, b@) == text_lt(a@.skip(i as int), b@.skip(i as int)),
        decreases a.len() - i,
    {
        let ca = a[i];
        let cb = b[i];
        if ca != cb {
            proof {
                assert(a@.skip(i as int)[0] == ca);
                assert(b@.skip(i as int)[0] == cb);
            }
            return ca < cb;
        }
        proof {
            assert(a@.skip(i as int).drop_first() =~= a@.skip(i + 1));
            assert(b@.skip(i as int).drop_first() =~= b@.skip(i + 1));
            assert(a@.subrange(0, i + 1) =~= a@.subrange(0, i as int).push(ca));
            assert(b@.subrange(0, i + 1) =~= b@.subrange(0, i as int).push(cb));
        }
        i = i + 1;
    }
    i < b.len()
}

/// `a` precedes `b` in the order by `(key, position)`.
pub open spec fn key_before(keys: Seq<u128>, a: usize, b: usize) -> bool {
    keys[a as int] < keys[b as int] || (keys[a as int] == keys[b as int] && a < b)
}

/// `a` precedes `b` in the order by `(text, position)`.
pub open spec fn text_before(keys: Seq<Seq<char>>, a: usize, b: usize) -> bool {
    text_lt(keys[a as int], keys[b as int]) || (keys[a as int] == keys[b as int] && a < b)
}

pub open spec fn positions(n: nat) -> Seq<usize> {
    Seq::new(n, |k: int| k as usize)
}

/// `order` lists each position below `keys.len()` once, by key and, among
/// equal keys, by position: the stable sort of the positions by key.
pub open spec fn stable_order_by_key(order: Seq<usize>, keys: Seq<u128>) -> bool {
    &&& order.to_multiset() == positions(keys.len()).to_multiset()
    &&& forall|i: int, j: int|
        0 <= i < j < order.len() ==> #[trigger] key_before(keys, order[i], order[j]) && order[j]
            < keys.len()
    &&& forall|i: int| 0 <= i < order.len() ==> order[i] < keys.len()
}

/// As [`stable_order_by_key`], ordering by text.
pub open spec fn stable_order_by_text(order: Seq<usize>, keys: Seq<Seq<char>>) -> bool {
    &&& order.to_multiset() == positions(keys.len()).to_multiset()
    &&& forall|i: int, j: int|
        0 <= i < j < order.len() ==> #[trigger] text_before(keys, order[i], order[j])
    &&& forall|i: int| 0 <= i < order.len() ==> order[i] < keys.len()
}

proof fn lemma_positions_push(n: nat)
    ensures
        positions(n + 1).to_multiset() == positions(n).to_multiset().insert(n as usize),
{
    broadcast use vstd::seq_lib::group_to_multiset_ensures;

    assert(positions(n + 1) =~= positions(n).push(n as usize));
}

/// The positions of `keys` in stable ascending key order.
pub fn order_by_key(keys: &Vec<u128>) -> (order: Vec<usize>)
    ensures
        stable_order_by_key(order@, keys@),
        order.len() == keys.len(),
{
    broadcast use vstd::seq_lib::to_multiset_insert;

    let mut out: Vec<usize> = Vec::new();
    let mut i: usize = 0;
    proof {
        assert(positions(0) =~= Seq::<usize>::empty());
    }
    while i < keys.len()
        invariant
            i <= keys.len(),
            out.len() == i,
            out@.to_multiset() == positions(i as nat).to_multiset(),
            forall|a: int, b: int|
                0 <= a < b < out.len() ==> #[trigger] key_before(keys@, out@[a], out@[b]),
            forall|a: int| 0 <= a < out.len() ==> out@[a] < i,
        decreases keys.len() - i,
    {
        let k = keys[i];
        let mut p: usize = 0;
        while p < out.len() && keys[out[p]] <= k
            invariant
                p <= out.len(),
                forall|a: int| 0 <= a < out.len() ==> out@[a] < i,
                forall|a: int| 0 <= a < p ==> keys@[out@[a] as int] <= k,
                i < keys.len(),
                k == keys@[i as int],
            decreases out.len() - p,
        {
            p = p + 1;
        }
        let ghost old_out = out@;
        out.insert(p, i);
        proof {
            lemma_positions_push(i as nat);
            assert(out@ == old_out.insert(p as int, i));
            vstd::seq_lib::to_multiset_insert(old_out, p as int, i);
            assert(out@.to_multiset() == old_out.to_multiset().insert(i));
            assert forall|a: int, b: int| 0 <= a < b < out.len() implies #[trigger] key_before(
                keys@,
                out@[a],
                out@[b],
            ) by {
                if b < p {
                    assert(out@[a] == old_out[a] && out@[b] == old_out[b]);
                    assert(key_before(keys@, old_out[a], old_out[b]));
                } else if b == p {
                    assert(out@[a] == old_out[a]);
                    assert(keys@[old_out[a] as int] <= k);
                } else if a == p {
                    assert(out@[b] == old_out[b - 1]);
                    assert(key_before(keys@, old_out[p as int], old_out[b - 1]) || b - 1 == p);
                    assert(keys@[old_out[p as int] as int] > k);
                } else if a < p {
                    assert(out@[a] == old_out[a] && out@[b] == old_out[b - 1]);
                    assert(key_before(keys@, old_out[a], old_out[b - 1]));
                } else {
                    assert(out@[a] == old_out[a - 1] && out@[b] == old_out[b - 1]);
                    assert(key_before(keys@, old_out[a - 1], old_out[b - 1]));
                }
            }
        }
        i = i + 1;
    }
    out
}

/// The positions of `keys` in stable ascending text order.
pub fn order_by_text(keys: &Vec<Vec<char>>) -> (order: Vec<usize>)
    ensures
        stable_order_by_text(order@, vecs_view(keys@)),
        order.len() == keys.len(),
{
    broadcast use vstd::seq_lib::to_multiset_insert;

    let ghost ks = vecs_view(keys@);
    let mut out: Vec<usize> = Vec::new();
    let mut i: usize = 0;
    proof {
        assert(positions(0) =~= Seq::<usize>::empty());
    }
    while i < keys.len()
        invariant
            i <= keys.len(),
            ks == vecs_view(keys@),
            ks.len() == keys.len(),
            out.len() == i,
            out@.to_multiset() == positions(i as nat).to_multiset(),
            forall|a: int, b: int|
                0 <= a < b < out.len() ==> #[trigger] text_before(ks, out@[a], out@[b]),
            forall|a: int| 0 <= a < out.len() ==> out@[a] < i,
        decreases keys.len() - i,
    {
        let k = &keys[i];
        let mut p: usize = 0;
        while p < out.len() && !chars_lt(k, &keys[out[p]])
            invariant
                p <= out.len(),
                ks == vecs_view(keys@),
                ks.len() == keys.len(),
                forall|a: int| 0 <= a < out.len() ==> out@[a] < i,
                forall|a: int| 0 <= a < p ==> !text_lt(ks[i as int], #[trigger] ks[out@[a] as int]),
                i < keys.len(),
                k@ == ks[i as int],
            decreases out.len() - p,
        {
            p = p + 1;
        }
        let ghost old_out = out@;
        out.insert(p, i);
        proof {
            lemma_positions_push(i as nat);
            assert(out@ == old_out.insert(p as int, i));
            vstd::seq_lib::to_multiset_insert(old_out, p as int, i);
            assert(out@.to_multiset() == old_out.to_multiset().insert(i));
            assert forall|a: int, b: int| 0 <= a < b < out.len() implies #[trigger] text_before(
                ks,
                out@[a],
                out@[b],
            ) by {
                if b < p {
                    assert(out@[a] == old_out[a] && out@[b] == old_out[b]);
                    assert(text_before(ks, old_out[a], old_out[b]));
                } else if b == p {
                    assert(out@[a] == old_out[a]);
                    let x = ks[old_out[a] as int];
                    lemma_text_lt_total(x, ks[i as int]);
                    assert(!text_lt(ks[i as int], x));
                } else if a == p {
                    assert(out@[b] == old_out[b - 1]);
                    let y = ks[old_out[p as int] as int];
                    let z = ks[old_out[b - 1] as int];
                    assert(text_lt(ks[i as int], y));
                    if b - 1 != p {
                        assert(text_before(ks, old_out[p as int], old_out[b - 1]));
                        if text_lt(y, z) {
                            lemma_text_lt_transitive(ks[i as int], y, z);
                        }
                    }
                } else if a < p {
                    assert(out@[a] == old_out[a] && out@[b] == old_out[b - 1]);
                    assert(text_before(ks, old_out[a], old_out[b - 1]));
                } else {
                    assert(out@[a] == old_out[a - 1] && out@[b] == old_out[b - 1]);
                    assert(text_before(ks, old_out[a - 1], old_out[b - 1]));
                }
            }
        }
        i = i + 1;
    }
    out
}

/// `s` is strictly increasing in text order (so it has no repeats).
pub open spec fn strictly_sorted_texts(s: Seq<Seq<char>>) -> bool {
    forall|i: int, j: int| 0 <= i < j < s.len() ==> #[trigger] text_lt(s[i], s[j])
}

/// The distinct texts of `items`, in ascending order (sort, then drop repeats).
pub fn sorted_distinct(items: &Vec<Vec<char>>) -> (r: Vec<Vec<char>>)
    ensures
        strictly_sorted_texts(vecs_view(r@)),
        vecs_view(r@).to_set() == vecs_view(items@).to_set(),
{
    let ghost src = vecs_view(items@);
    let mut out: Vec<Vec<char>> = Vec::new();
    let mut i: usize = 0;
    while i < items.len()
        invariant
            i <= items.len(),
            src == vecs_view(items@),
            strictly_sorted_texts(vecs_view(out@)),
            vecs_view(out@).to_set() == src.take(i as int).to_set(),
        decreases items.len() - i,
    {
        let x = &items[i];
        let ghost os = vecs_view(out@);
        let mut p: usize = 0;
        while p < out.len() && chars_lt(&out[p], x)
            invariant
                p <= out.len(),
                os == vecs_view(out@),
                forall|a: int| 0 <= a < p ==> text_lt(#[trigger] os[a], x@),
            decreases out.len() - p,
        {
            p = p + 1;
        }
        let dup = p < out.len() && crate::text::chars_eq(&out[p], x);
        proof {
            assert(src.take(i + 1) =~= src.take(i as int).push(x@));
            src.take(i as int).lemma_push_to_set_commute(x@);
        }
        if !dup {
            let ghost old_out = out@;
            out.insert(p, x.clone());
            proof {
                let ns = vecs_view(out@);
                assert(ns =~= os.insert(p as int, x@));
                assert(os.insert(p as int, x@).to_set() =~= os.to_set().insert(x@)) by {
                    assert forall|t: Seq<char>| os.insert(p as int, x@).to_set().contains(
                        t,
                    ) <==> os.to_set().insert(x@).contains(t) by {
                        if os.insert(p as int, x@).to_set().contains(t) {
                            let w = choose|w: int|
                                0 <= w < os.insert(p as int, x@).len() && os.insert(
                                    p as int,
                                    x@,
                                )[w] == t;
                            if w < p {
                                assert(os[w] == t);
                            } else if w > p {
                                assert(os[w - 1] == t);
                            }
                        }
                        if os.to_set().insert(x@).contains(t) && t != x@ {
                            let w = choose|w: int| 0 <= w < os.len() && os[w] == t;
                            if w < p {
                                assert(os.insert(p as int, x@)[w] == t);
                            } else {
                                assert(os.insert(p as int, x@)[w + 1] == t);
                            }
                        }
                        if t == x@ {
                            assert(os.insert(p as int, x@)[p as int] == x@);
                        }
                    }
                }
                assert forall|a: int, b: int| 0 <= a < b < ns.len() implies #[trigger] text_lt(
                    ns[a],
                    ns[b],
                ) by {
                    if b < p {
                        assert(ns[a] == os[a] && ns[b] == os[b]);
                    } else if b == p {
                        assert(ns[a] == os[a]);
                    } else if a == p {
                        assert(ns[b] == os[b - 1]);
                        if p < os.len() {
                            lemma_text_lt_total(os[p as int], x@);
                            assert(!text_lt(os[p as int], x@));
                            assert(os[p as int] != x@);
                            assert(text_lt(x@, os[p as int]));
                            if b - 1 > p {
                                lemma_text_lt_transitive(x@, os[p as int], os[b - 1]);
                            }
                        }
                    } else if a < p {
                        assert(ns[a] == os[a] && ns[b] == os[b - 1]);
                    } else {
                        assert(ns[a] == os[a - 1] && ns[b] == os[b - 1]);
                    }
                }
            }
        } else {
            proof {
                assert(os[p as int] == x@);
                assert(os.to_set().insert(x@) =~= os.to_set());
            }
        }
        i = i + 1;
    }
    proof {
        assert(src.take(items.len() as int) =~= src);
    }
    out
}


/// Lexicographic order on pairs of texts.
pub open spec fn pair_lt(a: (Seq<char>, Seq<char>), b: (Seq<char>, Seq<char>)) -> bool {
    text_lt(a.0, b.0) || (a.0 == b.0 && text_lt(a.1, b.1))
}

pub proof fn lemma_pair_lt_transitive(
    a: (Seq<char>, Seq<char>),
    b: (Seq<char>, Seq<char>),
    c: (Seq<char>, Seq<char>),
)
    requires
        pair_lt(a, b),
        pair_lt(b, c),
    ensures
        pair_lt(a, c),
{
    if text_lt(a.0, b.0) && text_lt(b.0, c.0) {
        lemma_text_lt_transitive(a.0, b.0, c.0);
    } else if text_lt(a.1, b.1) && text_lt(b.1, c.1) && a.0 == b.0 && b.0 == c.0 {
        lemma_text_lt_transitive(a.1, b.1, c.1);
    }
}

pub proof fn lemma_pair_lt_total(a: (Seq<char>, Seq<char>), b: (Seq<char>, Seq<char>))
    ensures
        (a.0 =~= b.0 && a.1 =~= b.1) || pair_lt(a, b) || pair_lt(b, a),
{
    lemma_text_lt_total(a.0, b.0);
    lemma_text_lt_total(a.1, b.1);
}

pub open spec fn pairs_view(v: Seq<(String, String)>) -> Seq<(Seq<char>, Seq<char>)> {
    v.map_values(|p: (String, String)| (p.0@, p.1@))
}

pub open spec fn strictly_sorted_pairs(s: Seq<(Seq<char>, Seq<char>)>) -> bool {
    forall|i: int, j: int| 0 <= i < j < s.len() ==> #[trigger] pair_lt(s[i], s[j])
}

fn pair_lt_exec(a: &(String, String), b: &(String, String)) -> (r: bool)
    ensures
        r == pair_lt((a.0@, a.1@), (b.0@, b.1@)),
{
    let a0 = crate::text::str_chars(a.0.as_str());
    let b0 = crate::text::str_chars(b.0.as_str());
    if chars_lt(&a0, &b0) {
        return true;
    }
    if !crate::text::chars_eq(&a0, &b0) {
        return false;
    }
    chars_lt(&crate::text::str_chars(a.1.as_str()), &crate::text::str_chars(b.1.as_str()))
}

fn pair_eq_exec(a: &(String, String), b: &(String, String)) -> (r: bool)
    ensures
        r == (a.0@ == b.0@ && a.1@ == b.1@),
{
    crate::text::chars_eq(&crate::text::str_chars(a.0.as_str()), &crate::text::str_chars(b.0.as_str()))
        && crate::text::chars_eq(
        &crate::text::str_chars(a.1.as_str()),
        &crate::text::str_chars(b.1.as_str()),
    )
}

/// The distinct pairs of `items`, in ascending order (sort, then drop
/// repeats).
pub fn sorted_distinct_pairs(items: &Vec<(String, String)>) -> (r: Vec<(String, String)>)
    ensures
        strictly_sorted_pairs(pairs_view(r@)),
        pairs_view(r@).to_set() == pairs_view(items@).to_set(),
{
    let ghost src = pairs_view(items@);
    let mut out: Vec<(String, String)> = Vec::new();
    let mut i: usize = 0;
    while i < items.len()
        invariant
            i <= items.len(),
            src == pairs_view(items@),
            strictly_sorted_pairs(pairs_view(out@)),
            pairs_view(out@).to_set() == src.take(i as int).to_set(),
        decreases items.len() - i,
    {
        let x = &items[i];
        let ghost xv = (x.0@, x.1@);
        let ghost os = pairs_view(out@);
        let mut p: usize = 0;
        while p < out.len() && pair_lt_exec(&out[p], x)
            invariant
                p <= out.len(),
                os == pairs_view(out@),
                xv == (x.0@, x.1@),
                forall|a: int| 0 <= a < p ==> pair_lt(#[trigger] os[a], xv),
            decreases out.len() - p,
        {
            p = p + 1;
        }
        let dup = p < out.len() && pair_eq_exec(&out[p], x);
        proof {
            assert(src.take(i + 1) =~= src.take(i as int).push(xv));
            src.take(i as int).lemma_push_to_set_commute(xv);
        }
        if !dup {
            out.insert(p, (x.0.clone(), x.1.clone()));
            proof {
                let ns = pairs_view(out@);
                assert(ns =~= os.insert(p as int, xv));
                assert(os.insert(p as int, xv).to_set() =~= os.to_set().insert(xv)) by {
                    assert forall|t: (Seq<char>, Seq<char>)| os.insert(p as int, xv).to_set().contains(
                        t,
                    ) <==> os.to_set().insert(xv).contains(t) by {
                        if os.insert(p as int, xv).to_set().contains(t) {
                            let w = choose|w: int|
                                0 <= w < os.insert(p as int, xv).len() && os.insert(p as int, xv)[w]
                                    == t;
                            if w < p {
                                assert(os[w] == t);
                            } else if w > p {
                                assert(os[w - 1] == t);
                            }
                        }
                        if os.to_set().insert(xv).contains(t) && t != xv {
                            let w = choose|w: int| 0 <= w < os.len() && os[w] == t;
                            if w < p {
                                assert(os.insert(p as int, xv)[w] == t);
                            } else {
                                assert(os.insert(p as int, xv)[w + 1] == t);
                            }
                        }
                        if t == xv {
                            assert(os.insert(p as int, xv)[p as int] == xv);
                        }
                    }
                }
                assert forall|a: int, b: int| 0 <= a < b < ns.len() implies #[trigger] pair_lt(
                    ns[a],
                    ns[b],
                ) by {
                    if b < p {
                        assert(ns[a] == os[a] && ns[b] == os[b]);
                    } else if b == p {
                        assert(ns[a] == os[a]);
                    } else if a == p {
                        assert(ns[b] == os[b - 1]);
                        if p < os.len() {
                            lemma_pair_lt_total(os[p as int], xv);
                            assert(!pair_lt(os[p as int], xv));
                            assert(os[p as int] != xv);
                            if os[p as int].0 =~= xv.0 && os[p as int].1 =~= xv.1 {
                                assert(os[p as int] == xv);
                            }
                            assert(pair_lt(xv, os[p as int]));
                            if b - 1 > p {
                                lemma_pair_lt_transitive(xv, os[p as int], os[b - 1]);
                            }
                        }
                    } else if a < p {
                        assert(ns[a] == os[a] && ns[b] == os[b - 1]);
                    } else {
                        assert(ns[a] == os[a - 1] && ns[b] == os[b - 1]);
                    }
                }
            }
        } else {
            proof {
                assert(os[p as int] == xv);
                assert(os.to_set().insert(xv) =~= os.to_set());
            }
        }
        i = i + 1;
    }
    proof {
        assert(src.take(items.len() as int) =~= src);
    }
    out
}


/// The items of `xs` at the positions listed in `order`.
pub open spec fn pick<A>(xs: Seq<A>, order: Seq<usize>) -> Seq<A> {
    order.map_values(|k: usize| xs[k as int])
}

proof fn lemma_pick_prefix<A>(xs: Seq<A>, order: Seq<usize>, n: nat)
    requires
        order.to_multiset() == positions(n).to_multiset(),
        n <= xs.len(),
        xs.len() <= usize::MAX,
    ensures
        pick(xs, order).to_multiset() == xs.take(n as int).to_multiset(),
    decreases n,
{
    broadcast use vstd::seq_lib::group_to_multiset_ensures;
    broadcast use vstd::multiset::group_multiset_axioms;

    if n == 0 {
        assert(order.to_multiset().len() == 0) by {
            assert(positions(0) =~= Seq::<usize>::empty());
        }
        assert(order.len() == 0);
        assert(pick(xs, order) =~= Seq::<A>::empty());
        assert(xs.take(0) =~= Seq::<A>::empty());
    } else {
        let last = (n - 1) as usize;
        lemma_positions_push((n - 1) as nat);
        assert(positions(n).to_multiset().count(last) > 0);
        assert(order.contains(last));
        let p = choose|p: int| 0 <= p < order.len() && order[p] == last;
        let rest = order.remove(p);
        vstd::seq_lib::to_multiset_remove(order, p);
        assert(rest.to_multiset() =~= positions((n - 1) as nat).to_multiset());
        lemma_pick_prefix(xs, rest, (n - 1) as nat);
        assert(pick(xs, order) =~= pick(xs, rest).insert(p, xs[n - 1])) by {
            assert(pick(xs, order).len() == pick(xs, rest).insert(p, xs[n - 1]).len());
            assert forall|k: int| 0 <= k < pick(xs, order).len() implies pick(xs, order)[k] == pick(
                xs,
                rest,
            ).insert(p, xs[n - 1])[k] by {
                if k < p {
                    assert(rest[k] == order[k]);
                } else if k > p {
                    assert(rest[k - 1] == order[k]);
                } else {
                    assert(order[k] == last);
                    assert(last as int == n - 1);
                }
            }
        }
        vstd::seq_lib::to_multiset_insert(pick(xs, rest), p, xs[n - 1]);
        assert(xs.take(n as int) =~= xs.take(n - 1).push(xs[n - 1]));
    }
}

/// Picking every position once keeps the multiset of items.
pub proof fn lemma_pick_multiset<A>(xs: Seq<A>, order: Seq<usize>)
    requires
        order.to_multiset() == positions(xs.len()).to_multiset(),
        xs.len() <= usize::MAX,
    ensures
        pick(xs, order).to_multiset() == xs.to_multiset(),
{
    lemma_pick_prefix(xs, order, xs.len());
    assert(xs.take(xs.len() as int) =~= xs);
}

/// Text order, not strict.
pub open spec fn text_le(a: Seq<char>, b: Seq<char>) -> bool {
    text_lt(a, b) || a == b
}

/// [`text_le`] as a relation value.
pub open spec fn text_le_rel() -> spec_fn(Seq<char>, Seq<char>) -> bool {
    |a: Seq<char>, b: Seq<char>| text_le(a, b)
}

/// The texts in ascending order; equal texts stay side by side.
pub open spec fn sorted_texts(texts: Seq<Seq<char>>) -> Seq<Seq<char>> {
    texts.sort_by(text_le_rel())
}

proof fn lemma_text_le_total()
    ensures
        vstd::relations::total_ordering(text_le_rel()),
{
    let le = text_le_rel();
    assert forall|x: Seq<char>, y: Seq<char>| #[trigger] le(x, y) && #[trigger] le(y, x) implies x
        == y by {
        if x != y {
            lemma_text_lt_asymmetric(x, y);
        }
    }
    assert forall|x: Seq<char>, y: Seq<char>, z: Seq<char>| #[trigger] le(x, y) && #[trigger] le(
        y,
        z,
    ) implies le(x, z) by {
        if text_lt(x, y) && text_lt(y, z) {
            lemma_text_lt_transitive(x, y, z);
        }
    }
    assert forall|x: Seq<char>, y: Seq<char>| #[trigger] le(x, y) || #[trigger] le(y, x) by {
        lemma_text_lt_total(x, y);
    }
}

/// Picking the texts in a stable order by text gives [`sorted_texts`].
pub proof fn lemma_pick_sorted_texts(texts: Seq<Seq<char>>, order: Seq<usize>)
    requires
        texts.len() <= usize::MAX,
        stable_order_by_text(order, texts),
    ensures
        pick(texts, order) == sorted_texts(texts),
{
    let le = text_le_rel();
    lemma_pick_multiset(texts, order);
    lemma_text_le_total();
    texts.lemma_sort_by_ensures(le);
    assert(vstd::relations::sorted_by(pick(texts, order), le)) by {
        assert forall|i: int, j: int| 0 <= i < j < pick(texts, order).len() implies #[trigger] le(
            pick(texts, order)[i],
            pick(texts, order)[j],
        ) by {
            assert(text_before(texts, order[i], order[j]));
        }
    }
    vstd::seq_lib::lemma_sorted_unique(pick(texts, order), sorted_texts(texts), le);
}

/// Sorting forgets the order of the input: two lists that hold the same
/// texts, each as often, sort to the same list.
pub proof fn lemma_sorted_texts_ignore_order(t1: Seq<Seq<char>>, t2: Seq<Seq<char>>)
    requires
        t1.to_multiset() == t2.to_multiset(),
    ensures
        sorted_texts(t1) == sorted_texts(t2),
{
    let le = text_le_rel();
    lemma_text_le_total();
    t1.lemma_sort_by_ensures(le);
    t2.lemma_sort_by_ensures(le);
    vstd::seq_lib::lemma_sorted_unique(sorted_texts(t1), sorted_texts(t2), le);
}

/// Order of (path, size) pairs: by path, then by size.
pub open spec fn path_size_le(a: (Seq<char>, u64), b: (Seq<char>, u64)) -> bool {
    text_lt(a.0, b.0) || (a.0 == b.0 && a.1 <= b.1)
}

pub open spec fn path_size_le_rel() -> spec_fn((Seq<char>, u64), (Seq<char>, u64)) -> bool {
    |a: (Seq<char>, u64), b: (Seq<char>, u64)| path_size_le(a, b)
}

pub proof fn lemma_path_size_le_total()
    ensures
        vstd::relations::total_ordering(path_size_le_rel()),
{
    let le = path_size_le_rel();
    assert forall|x: (Seq<char>, u64)| #[trigger] le(x, x) by {
    }
    assert forall|x: (Seq<char>, u64), y: (Seq<char>, u64)| #[trigger] le(x, y) && #[trigger] le(y, x)
        implies x == y by {
        if text_lt(x.0, y.0) {
            lemma_text_lt_asymmetric(x.0, y.0);
        } else if text_lt(y.0, x.0) {
            lemma_text_lt_asymmetric(y.0, x.0);
        }
    }
    assert forall|x: (Seq<char>, u64), y: (Seq<char>, u64), z: (Seq<char>, u64)| #[trigger] le(x, y)
        && #[trigger] le(y, z) implies le(x, z) by {
        if text_lt(x.0, y.0) && text_lt(y.0, z.0) {
            lemma_text_lt_transitive(x.0, y.0, z.0);
        }
    }
    assert forall|x: (Seq<char>, u64), y: (Seq<char>, u64)| #[trigger] le(x, y) || #[trigger] le(y, x) by {
        lemma_text_lt_total(x.0, y.0);
    }
}

} // verus!

