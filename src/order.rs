//! Lexicographic order on texts, and sorted lists of distinct names.

use vstd::prelude::*;
use crate::engine::texts;

verus! {

/// `a` comes strictly before `b` in lexicographic order of code points (the
/// order of `String`'s `Ord`, since UTF-8 keeps code-point order).
pub open spec fn text_lt(a: Seq<char>, b: Seq<char>) -> bool
    decreases a.len(),
{
    if a.len() == 0 {
        b.len() > 0
    } else if b.len() == 0 {
        false
    } else if a[0] == b[0] {
        text_lt(a.drop_first(), b.drop_first())
    } else {
        a[0] < b[0]
    }
}

/// `s` is strictly increasing: sorted, with no repeats.
pub open spec fn strictly_sorted(s: Seq<Seq<char>>) -> bool {
    forall|a: int, b: int| 0 <= a < b < s.len() ==> text_lt(#[trigger] s[a], #[trigger] s[b])
}

pub proof fn lemma_text_lt_transitive(a: Seq<char>, b: Seq<char>, c: Seq<char>)
    requires
        text_lt(a, b),
        text_lt(b, c),
    ensures
        text_lt(a, c),
    decreases a.len(),
{
    if a.len() > 0 && b.len() > 0 && c.len() > 0 {
        if a[0] == b[0] && b[0] == c[0] {
            lemma_text_lt_transitive(a.drop_first(), b.drop_first(), c.drop_first());
        }
    }
}

pub proof fn lemma_text_lt_total(a: Seq<char>, b: Seq<char>)
    requires
        a != b,
    ensures
        text_lt(a, b) || text_lt(b, a),
    decreases a.len(),
{
    if a.len() > 0 && b.len() > 0 {
        if a[0] == b[0] {
            assert(a.drop_first() != b.drop_first()) by {
                if a.drop_first() == b.drop_first() {
                    assert(a =~= seq![a[0]] + a.drop_first());
                    assert(b =~= seq![b[0]] + b.drop_first());
                }
            }
            lemma_text_lt_total(a.drop_first(), b.drop_first());
        }
    } else if a.len() == 0 && b.len() == 0 {
        assert(a =~= b);
    }
}

/// Whether `a` comes strictly before `b`.
pub fn text_less(a: &String, b: &String) -> (r: bool)
    ensures
        r == text_lt(a@, b@),
{
    let x = crate::text::chars_of(a.as_str());
    let y = crate::text::chars_of(b.as_str());
    let mut i: usize = 0;
    assert(a@.skip(0) =~= a@);
    assert(b@.skip(0) =~= b@);
    while i < x.len() && i < y.len() && x[i] == y[i]
        invariant
            i <= x@.len(),
            i <= y@.len(),
            x@ == a@,
            y@ == b@,
            text_lt(a@, b@) == text_lt(a@.skip(i as int), b@.skip(i as int)),
        decreases x.len() - i,
    {
        assert(a@.skip(i as int).drop_first() =~= a@.skip(i + 1));
        assert(b@.skip(i as int).drop_first() =~= b@.skip(i + 1));
        i += 1;
    }
    if i == x.len() {
        i < y.len()
    } else if i == y.len() {
        false
    } else {
        x[i] < y[i]
    }
}

/// Adds `name` to a strictly sorted list, unless it is there already.
fn insert_sorted(list: &mut Vec<String>, name: String)
    requires
        strictly_sorted(texts(old(list)@)),
    ensures
        strictly_sorted(texts(final(list)@)),
        forall|x: Seq<char>|
            #[trigger] texts(final(list)@).contains(x) <==> (texts(old(list)@).contains(x) || x == name@),
{
    let ghost s = texts(list@);
    let mut p: usize = 0;
    while p < list.len() && text_less(&list[p], &name)
        invariant
            s == texts(list@),
            p <= list@.len(),
            forall|a: int| 0 <= a < p ==> text_lt(#[trigger] s[a], name@),
        decreases list.len() - p,
    {
        p += 1;
    }
    if p < list.len() && list[p] == name {
        assert(s[p as int] == name@);
        return;
    }
    proof {
        if p < s.len() {
            lemma_text_lt_total(s[p as int], name@);
        }
    }
    let ghost s0 = s;
    list.insert(p, name);
    proof {
        let s1 = texts(list@);
        assert(s1 =~= s0.insert(p as int, name@));
        assert forall|a: int, b: int| 0 <= a < b < s1.len() implies text_lt(
            #[trigger] s1[a],
            #[trigger] s1[b],
        ) by {
            if b < p {
            } else if b == p {
            } else if a < p {
                assert(s1[b] == s0[b - 1]);
                if p < s0.len() {
                    if b - 1 > p {
                        lemma_text_lt_transitive(name@, s0[p as int], s0[b - 1]);
                    }
                    lemma_text_lt_transitive(s0[a], name@, s0[b - 1]);
                }
            } else if a == p {
                assert(s1[b] == s0[b - 1]);
                if b - 1 > p {
                    lemma_text_lt_transitive(name@, s0[p as int], s0[b - 1]);
                }
            } else {
                assert(s1[a] == s0[a - 1]);
                assert(s1[b] == s0[b - 1]);
            }
        }
        assert forall|x: Seq<char>|
            #[trigger] s1.contains(x) <==> (s0.contains(x) || x == name@) by {
            if s1.contains(x) {
                let k = choose|k: int| 0 <= k < s1.len() && s1[k] == x;
                if k < p {
                    assert(s0[k] == x);
                } else if k > p {
                    assert(s0[k - 1] == x);
                }
            }
            if s0.contains(x) {
                let k = choose|k: int| 0 <= k < s0.len() && s0[k] == x;
                if k < p {
                    assert(s1[k] == x);
                } else {
                    assert(s1[k + 1] == x);
                }
            }
            if x == name@ {
                assert(s1[p as int] == x);
            }
        }
    }
}

/// The distinct names of `v`, sorted.
pub fn sorted_unique(v: &Vec<String>) -> (r: Vec<String>)
    ensures
        strictly_sorted(texts(r@)),
        forall|x: Seq<char>| #[trigger] texts(r@).contains(x) <==> texts(v@).contains(x),
{
    let mut r: Vec<String> = Vec::new();
    let mut i: usize = 0;
    assert(texts(r@) =~= Seq::empty());
    while i < v.len()
        invariant
            i <= v@.len(),
            strictly_sorted(texts(r@)),
            forall|x: Seq<char>|
                #[trigger] texts(r@).contains(x) <==> texts(v@.take(i as int)).contains(x),
        decreases v.len() - i,
    {
        let ghost t0 = texts(v@.take(i as int));
        insert_sorted(&mut r, v[i].clone());
        proof {
            assert(texts(v@.take(i + 1)) =~= t0.push(v@[i as int]@));
            assert forall|x: Seq<char>|
                #[trigger] texts(r@).contains(x) <==> texts(v@.take(i + 1)).contains(x) by {
                crate::engine::lemma_push_contains(t0, v@[i as int]@, x);
            }
        }
        i += 1;
    }
    assert(v@.take(v@.len() as int) =~= v@);
    r
}

} // verus!
