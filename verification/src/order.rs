//! The order the resolution table lists its entries in: by name, in
//! lexicographic order of characters, and by module position.

use vstd::prelude::*;

verus! {

/// Lexicographic order of character sequences: `a` comes before `b` when
/// it is a proper prefix of `b`, or at the first position where they
/// differ its character is the smaller.
pub open spec fn lex_lt(a: Seq<char>, b: Seq<char>) -> bool
    decreases a.len(),
{
    if a.len() == 0 {
        b.len() > 0
    } else if b.len() == 0 {
        false
    } else if a[0] != b[0] {
        (a[0] as int) < (b[0] as int)
    } else {
        lex_lt(a.drop_first(), b.drop_first())
    }
}

pub proof fn lemma_lex_irreflexive(a: Seq<char>)
    ensures
        !lex_lt(a, a),
    decreases a.len(),
{
    if a.len() > 0 {
        lemma_lex_irreflexive(a.drop_first());
    }
}

pub proof fn lemma_lex_asymmetric(a: Seq<char>, b: Seq<char>)
    ensures
        !(lex_lt(a, b) && lex_lt(b, a)),
    decreases a.len(),
{
    if a.len() > 0 && b.len() > 0 && a[0] == b[0] {
        lemma_lex_asymmetric(a.drop_first(), b.drop_first());
    }
}

pub proof fn lemma_lex_transitive(a: Seq<char>, b: Seq<char>, c: Seq<char>)
    requires
        lex_lt(a, b),
        lex_lt(b, c),
    ensures
        lex_lt(a, c),
    decreases a.len(),
{
    if a.len() > 0 && b.len() > 0 && c.len() > 0 && a[0] == b[0] && b[0] == c[0] {
        lemma_lex_transitive(a.drop_first(), b.drop_first(), c.drop_first());
    }
}

pub proof fn lemma_lex_total(a: Seq<char>, b: Seq<char>)
    requires
        a != b,
    ensures
        lex_lt(a, b) || lex_lt(b, a),
    decreases a.len(),
{
    if a.len() > 0 && b.len() > 0 {
        if a[0] == b[0] {
            if a.drop_first() == b.drop_first() {
                assert(a =~= seq![a[0]] + a.drop_first());
                assert(b =~= seq![b[0]] + b.drop_first());
            }
            lemma_lex_total(a.drop_first(), b.drop_first());
        } else {
            assert((a[0] as int) != (b[0] as int));
        }
    } else if a.len() == 0 && b.len() == 0 {
        assert(a =~= b);
    }
}

/// The order of keys: by name then number, or by number then name.
pub open spec fn key_lt(name_first: bool, a: (Seq<char>, u32), b: (Seq<char>, u32)) -> bool {
    if name_first {
        lex_lt(a.0, b.0) || (a.0 == b.0 && a.1 < b.1)
    } else {
        a.1 < b.1 || (a.1 == b.1 && lex_lt(a.0, b.0))
    }
}

pub proof fn lemma_key_order(name_first: bool, a: (Seq<char>, u32), b: (Seq<char>, u32), c: (Seq<char>, u32))
    ensures
        !key_lt(name_first, a, a),
        !(key_lt(name_first, a, b) && key_lt(name_first, b, a)),
        key_lt(name_first, a, b) && key_lt(name_first, b, c) ==> key_lt(name_first, a, c),
        a != b ==> key_lt(name_first, a, b) || key_lt(name_first, b, a),
{
    lemma_lex_irreflexive(a.0);
    lemma_lex_asymmetric(a.0, b.0);
    if lex_lt(a.0, b.0) && lex_lt(b.0, c.0) {
        lemma_lex_transitive(a.0, b.0, c.0);
    }
    if a.0 != b.0 {
        lemma_lex_total(a.0, b.0);
    }
}

/// Strictly increasing in the key order.
pub open spec fn strictly_sorted(name_first: bool, s: Seq<(Seq<char>, u32)>) -> bool {
    forall|i: int, j: int| 0 <= i < j < s.len() ==> key_lt(name_first, #[trigger] s[i], #[trigger] s[j])
}

/// Calls std's `PartialOrd for str`, which orders strings by their UTF-8
/// bytes; UTF-8 keeps the order of characters, so this is the
/// lexicographic order of the characters.
#[verifier::external_body]
pub(crate) fn text_less(a: &str, b: &str) -> (r: bool)
    ensures
        r == lex_lt(a@, b@),
{
    a < b
}

fn key_less<P>(name_first: bool, a: &(String, u32, P), b: &(String, u32, P)) -> (r: bool)
    ensures
        r == key_lt(name_first, (a.0@, a.1), (b.0@, b.1)),
{
    let same = crate::text::same_text(a.0.as_str(), b.0.as_str());
    if name_first {
        text_less(a.0.as_str(), b.0.as_str()) || (same && a.1 < b.1)
    } else {
        a.1 < b.1 || (a.1 == b.1 && text_less(a.0.as_str(), b.0.as_str()))
    }
}

pub open spec fn key_view<P>(k: (String, u32, P)) -> (Seq<char>, u32) {
    (k.0@, k.1)
}

/// The positions of `keys` in increasing key order: each position once.
pub fn sorted_positions<P>(keys: &Vec<(String, u32, P)>, name_first: bool) -> (order: Vec<usize>)
    requires
        forall|i: int, j: int| 0 <= i < j < keys@.len() ==> key_view(#[trigger] keys@[i]) != key_view(#[trigger] keys@[j]),
    ensures
        order@.len() == keys@.len(),
        forall|i: int| 0 <= i < order@.len() ==> order@[i] < keys@.len(),
        forall|p: usize| p < keys@.len() ==> order@.contains(p),
        strictly_sorted(name_first, Seq::new(order@.len(), |i: int| key_view(keys@[order@[i] as int]))),
{
    let ghost kv = Seq::new(keys@.len(), |i: int| key_view(keys@[i]));
    let n = keys.len();
    let mut order: Vec<usize> = Vec::new();
    for i in 0..n
        invariant
            n == keys@.len(),
            kv == Seq::new(keys@.len(), |i: int| key_view(keys@[i])),
            forall|a: int, b: int| 0 <= a < b < keys@.len() ==> key_view(#[trigger] keys@[a]) != key_view(#[trigger] keys@[b]),
            order@.len() == i,
            forall|a: int| 0 <= a < order@.len() ==> order@[a] < i,
            forall|p: usize| p < i ==> order@.contains(p),
            forall|a: int, b: int| 0 <= a < b < order@.len() ==> key_lt(name_first, kv[#[trigger] order@[a] as int], kv[#[trigger] order@[b] as int]),
    {
        // the first position whose key follows the new one
        let mut p: usize = 0;
        while p < order.len() && !key_less(name_first, &keys[i], &keys[order[p]])
            invariant
                n == keys@.len(),
                kv == Seq::new(keys@.len(), |i: int| key_view(keys@[i])),
                i < n,
                p <= order@.len(),
                forall|a: int| 0 <= a < order@.len() ==> order@[a] < i,
                forall|a: int| 0 <= a < p ==> !key_lt(name_first, kv[i as int], kv[#[trigger] order@[a] as int]),
            decreases order@.len() - p,
        {
            p = p + 1;
        }
        let ghost old_order = order@;
        proof {
            assert forall|a: int| 0 <= a < p implies key_lt(name_first, kv[#[trigger] old_order[a] as int], kv[i as int]) by {
                let o = old_order[a];
                assert(key_view(keys@[o as int]) != key_view(keys@[i as int]));
                lemma_key_order(name_first, kv[o as int], kv[i as int], kv[i as int]);
            }
            if p < old_order.len() {
                assert forall|a: int| p <= a < old_order.len() implies key_lt(name_first, kv[i as int], kv[#[trigger] old_order[a] as int]) by {
                    if a > p {
                        lemma_key_order(name_first, kv[i as int], kv[old_order[p as int] as int], kv[old_order[a] as int]);
                    }
                }
            }
        }
        order.insert(p, i);
        proof {
            assert forall|a: int, b: int| 0 <= a < b < order@.len() implies key_lt(name_first, kv[#[trigger] order@[a] as int], kv[#[trigger] order@[b] as int]) by {
                if b < p {
                    assert(order@[a] == old_order[a] && order@[b] == old_order[b]);
                } else if b == p {
                    assert(order@[a] == old_order[a]);
                } else if a < p {
                    assert(order@[a] == old_order[a] && order@[b] == old_order[b - 1]);
                    lemma_key_order(name_first, kv[old_order[a] as int], kv[i as int], kv[old_order[b - 1] as int]);
                } else if a == p {
                    assert(order@[b] == old_order[b - 1]);
                } else {
                    assert(order@[a] == old_order[a - 1] && order@[b] == old_order[b - 1]);
                }
            }
            assert forall|q: usize| q < i + 1 implies order@.contains(q) by {
                if q == i {
                    assert(order@[p as int] == i);
                } else {
                    assert(old_order.contains(q));
                    let a = choose|a: int| 0 <= a < old_order.len() && old_order[a] == q;
                    if a < p {
                        assert(order@[a] == q);
                    } else {
                        assert(order@[a + 1] == q);
                    }
                }
            }
        }
    }
    proof {
        let s = Seq::new(order@.len(), |i: int| key_view(keys@[order@[i] as int]));
        assert forall|a: int, b: int| 0 <= a < b < s.len() implies key_lt(name_first, #[trigger] s[a], #[trigger] s[b]) by {
            assert(s[a] == kv[order@[a] as int]);
            assert(s[b] == kv[order@[b] as int]);
        }
    }
    order
}


pub open spec fn triples_view<P>(o: Seq<(String, u32, P)>) -> Seq<(Seq<char>, u32, P)> {
    Seq::new(o.len(), |i: int| (o[i].0@, o[i].1, o[i].2))
}

pub open spec fn triple_keys<P>(t: Seq<(Seq<char>, u32, P)>) -> Seq<(Seq<char>, u32)> {
    Seq::new(t.len(), |i: int| (t[i].0, t[i].1))
}

/// The entries in increasing key order.
pub fn sort_entries<P: Copy>(items: &Vec<(String, u32, P)>, name_first: bool) -> (out: Vec<(String, u32, P)>)
    requires
        forall|i: int, j: int| 0 <= i < j < items@.len() ==> key_view(#[trigger] items@[i]) != key_view(#[trigger] items@[j]),
    ensures
        out@.len() == items@.len(),
        strictly_sorted(name_first, triple_keys(triples_view(out@))),
        triples_view(out@).to_set() == triples_view(items@).to_set(),
{
    let order = sorted_positions(items, name_first);
    let ghost input = triples_view(items@);
    let ghost ks = Seq::new(order@.len(), |i: int| key_view(items@[order@[i] as int]));
    let mut out: Vec<(String, u32, P)> = Vec::new();
    let n = order.len();
    for a in 0..n
        invariant
            n == order@.len(),
            n == items@.len(),
            forall|i: int| 0 <= i < order@.len() ==> order@[i] < items@.len(),
            input == triples_view(items@),
            out@.len() == a,
            forall|b: int| 0 <= b < a ==> triples_view(out@)[b] == input[order@[b] as int],
    {
        let o = order[a];
        let ghost before = out@;
        out.push((items[o].0.clone(), items[o].1, items[o].2));
        assert(triples_view(out@)[a as int] == input[o as int]);
        assert forall|b: int| 0 <= b < a + 1 implies triples_view(out@)[b] == input[order@[b] as int] by {
            if b < a {
                assert(out@[b] == before[b]);
                assert(triples_view(before)[b] == input[order@[b] as int]);
                assert(triples_view(out@)[b] == triples_view(before)[b]);
            }
        }
    }
    proof {
        let t = triples_view(out@);
        assert(triple_keys(t) =~= ks);
        assert forall|x: (Seq<char>, u32, P)| t.to_set().contains(x) <==> input.to_set().contains(x) by {
            if t.to_set().contains(x) {
                let b = choose|b: int| 0 <= b < t.len() && t[b] == x;
                assert(input[order@[b] as int] == x);
            }
            if input.to_set().contains(x) {
                let p = choose|p: int| 0 <= p < input.len() && input[p] == x;
                assert(order@.contains(p as usize));
                let b = choose|b: int| 0 <= b < order@.len() && order@[b] == p as usize;
                assert(t[b] == x);
            }
        }
        assert(t.to_set() =~= input.to_set());
    }
    out
}

/// Two sequences strictly increasing in one key order and holding the
/// same elements are the same sequence.
pub proof fn lemma_sorted_unique<P>(name_first: bool, a: Seq<(Seq<char>, u32, P)>, b: Seq<(Seq<char>, u32, P)>)
    requires
        strictly_sorted(name_first, triple_keys(a)),
        strictly_sorted(name_first, triple_keys(b)),
        a.to_set() == b.to_set(),
    ensures
        a == b,
    decreases a.len(),
{
    let ka = triple_keys(a);
    let kb = triple_keys(b);
    if a.len() == 0 {
        if b.len() > 0 {
            assert(b.to_set().contains(b[0]));
        }
        assert(a =~= b);
    } else if b.len() == 0 {
        assert(a.to_set().contains(a[0]));
    } else {
        assert(a.to_set().contains(a[0]));
        assert(b.to_set().contains(b[0]));
        let j = choose|j: int| 0 <= j < b.len() && b[j] == a[0];
        let i = choose|i: int| 0 <= i < a.len() && a[i] == b[0];
        lemma_key_order(name_first, ka[0], kb[0], ka[0]);
        if j > 0 {
            assert(key_lt(name_first, kb[0], kb[j]));
            assert(kb[j] == ka[0]);
            if i > 0 {
                assert(key_lt(name_first, ka[0], ka[i]));
                assert(ka[i] == kb[0]);
            } else {
                assert(kb[0] == ka[0]);
            }
            assert(false);
        }
        assert(a[0] == b[0]);
        let a1 = a.drop_first();
        let b1 = b.drop_first();
        assert forall|x: (Seq<char>, u32, P)| a1.to_set().contains(x) <==> b1.to_set().contains(x) by {
            if a1.to_set().contains(x) {
                let p = choose|p: int| 0 <= p < a1.len() && a1[p] == x;
                assert(a[p + 1] == x);
                assert(key_lt(name_first, ka[0], ka[p + 1]));
                lemma_key_order(name_first, ka[0], ka[0], ka[0]);
                assert(b.to_set().contains(x));
                let q = choose|q: int| 0 <= q < b.len() && b[q] == x;
                assert(q != 0);
                assert(b1[q - 1] == x);
            }
            if b1.to_set().contains(x) {
                let p = choose|p: int| 0 <= p < b1.len() && b1[p] == x;
                assert(b[p + 1] == x);
                assert(key_lt(name_first, kb[0], kb[p + 1]));
                lemma_key_order(name_first, kb[0], kb[0], kb[0]);
                assert(a.to_set().contains(x));
                let q = choose|q: int| 0 <= q < a.len() && a[q] == x;
                assert(q != 0);
                assert(a1[q - 1] == x);
            }
        }
        assert(a1.to_set() =~= b1.to_set());
        assert(strictly_sorted(name_first, triple_keys(a1))) by {
            assert forall|x: int, y: int| 0 <= x < y < triple_keys(a1).len() implies key_lt(name_first, #[trigger] triple_keys(a1)[x], #[trigger] triple_keys(a1)[y]) by {
                assert(triple_keys(a1)[x] == ka[x + 1] && triple_keys(a1)[y] == ka[y + 1]);
            }
        }
        assert(strictly_sorted(name_first, triple_keys(b1))) by {
            assert forall|x: int, y: int| 0 <= x < y < triple_keys(b1).len() implies key_lt(name_first, #[trigger] triple_keys(b1)[x], #[trigger] triple_keys(b1)[y]) by {
                assert(triple_keys(b1)[x] == kb[x + 1] && triple_keys(b1)[y] == kb[y + 1]);
            }
        }
        lemma_sorted_unique(name_first, a1, b1);
        assert(a =~= b) by {
            assert forall|k: int| 0 <= k < a.len() implies a[k] == b[k] by {
                if k > 0 {
                    assert(a[k] == a1[k - 1] && b[k] == b1[k - 1]);
                }
            }
        }
    }
}

} // verus!
