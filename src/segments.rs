//! Splitting a permission name `service.resource.action` into its parts.

use vstd::prelude::*;
use crate::text::{chars_of, string_of};

verus! {

/// Position of the first `'.'` in `s`, or `s.len()` when there is none.
pub open spec fn first_dot(s: Seq<char>) -> nat
    decreases s.len(),
{
    if s.len() == 0 {
        0
    } else if s[0] == '.' {
        0
    } else {
        1 + first_dot(s.drop_first())
    }
}

/// The `k`-th piece of `s` split at every `'.'`; empty when `s` has fewer
/// than `k + 1` pieces.
pub open spec fn segment(s: Seq<char>, k: nat) -> Seq<char>
    decreases k,
{
    let d = first_dot(s);
    if k == 0 {
        s.take(d as int)
    } else if d < s.len() {
        segment(s.skip(d as int + 1), (k - 1) as nat)
    } else {
        Seq::empty()
    }
}

/// `s` holds no `'.'`.
pub open spec fn dot_free(s: Seq<char>) -> bool {
    forall|i: int| 0 <= i < s.len() ==> s[i] != '.'
}

proof fn lemma_first_dot_bound(s: Seq<char>)
    ensures
        first_dot(s) <= s.len(),
        first_dot(s) < s.len() ==> s[first_dot(s) as int] == '.',
        forall|i: int| 0 <= i < first_dot(s) ==> s[i] != '.',
    decreases s.len(),
{
    if s.len() > 0 && s[0] != '.' {
        lemma_first_dot_bound(s.drop_first());
        assert forall|i: int| 0 <= i < first_dot(s) implies s[i] != '.' by {
            if i > 0 {
                assert(s[i] == s.drop_first()[i - 1]);
            }
        }
    }
}

/// Position of the first `'.'` in `s` at or after `from`, or `s.len()`.
fn find_dot(s: &Vec<char>, from: usize) -> (r: usize)
    requires
        from <= s@.len(),
    ensures
        r == from + first_dot(s@.skip(from as int)),
        r <= s@.len(),
{
    let mut i: usize = from;
    while i < s.len() && s[i] != '.'
        invariant
            from <= i <= s@.len(),
            first_dot(s@.skip(from as int)) == (i - from) + first_dot(s@.skip(i as int)),
        decreases s.len() - i,
    {
        assert(s@.skip(i as int).drop_first() =~= s@.skip(i + 1));
        i += 1;
    }
    proof {
        lemma_first_dot_bound(s@.skip(i as int));
    }
    i
}

/// A copy of `s[from..to]`.
fn piece(s: &Vec<char>, from: usize, to: usize) -> (r: Vec<char>)
    requires
        from <= to <= s@.len(),
    ensures
        r@ == s@.subrange(from as int, to as int),
{
    let mut r: Vec<char> = Vec::new();
    let mut i: usize = from;
    while i < to
        invariant
            from <= i <= to <= s@.len(),
            r@ == s@.subrange(from as int, i as int),
        decreases to - i,
    {
        r.push(s[i]);
        i += 1;
        assert(r@ =~= s@.subrange(from as int, i as int));
    }
    r
}

/// The `k`-th dot-separated piece of `s`, as `segment` describes it.
pub fn name_segment(s: &Vec<char>, k: usize) -> (r: Vec<char>)
    ensures
        r@ == segment(s@, k as nat),
{
    let mut from: usize = 0;
    let mut j: usize = 0;
    assert(s@.skip(0) =~= s@);
    while j < k
        invariant
            j <= k,
            from <= s@.len(),
            segment(s@, k as nat) == segment(s@.skip(from as int), (k - j) as nat),
        decreases k - j,
    {
        let d = find_dot(s, from);
        if d == s.len() {
            return Vec::new();
        }
        assert(s@.skip(from as int).skip(d - from + 1) =~= s@.skip(d + 1));
        from = d + 1;
        j += 1;
    }
    let d = find_dot(s, from);
    let r = piece(s, from, d);
    assert(r@ =~= s@.skip(from as int).take(d - from));
    r
}

/// The service, resource and action of a permission name: its first three
/// dot-separated pieces, each empty when absent.
pub fn split_permission_name(name: &str) -> (r: (String, String, String))
    ensures
        r.0@ == segment(name@, 0),
        r.1@ == segment(name@, 1),
        r.2@ == segment(name@, 2),
{
    let chars = chars_of(name);
    let service = string_of(&name_segment(&chars, 0));
    let resource = string_of(&name_segment(&chars, 1));
    let action = string_of(&name_segment(&chars, 2));
    (service, resource, action)
}

proof fn lemma_first_dot_concat(x: Seq<char>, y: Seq<char>)
    requires
        dot_free(x),
    ensures
        first_dot(x + y) == x.len() + first_dot(y),
    decreases x.len(),
{
    if x.len() > 0 {
        assert((x + y).drop_first() =~= x.drop_first() + y);
        lemma_first_dot_concat(x.drop_first(), y);
    } else {
        assert(x + y =~= y);
    }
}

proof fn lemma_segments_of_join(x: Seq<char>, rest: Seq<char>, k: nat)
    requires
        dot_free(x),
    ensures
        segment(x + seq!['.'] + rest, 0) == x,
        segment(x + seq!['.'] + rest, k + 1) == segment(rest, k),
{
    let s = x + seq!['.'] + rest;
    assert(s =~= x + (seq!['.'] + rest));
    lemma_first_dot_concat(x, seq!['.'] + rest);
    assert(first_dot(seq!['.'] + rest) == 0);
    assert(s.take(x.len() as int) =~= x);
    assert(s.skip(x.len() as int + 1) =~= rest);
}

proof fn lemma_segments_of_single(x: Seq<char>, k: nat)
    requires
        dot_free(x),
    ensures
        segment(x, 0) == x,
        segment(x, k + 1) == Seq::<char>::empty(),
{
    lemma_first_dot_concat(x, Seq::empty());
    assert(x + Seq::<char>::empty() =~= x);
    assert(x.take(x.len() as int) =~= x);
}

/// A name `a.b.c` has service `a`, resource `b` and action `c`; a name `a.b`
/// has service `a`, resource `b` and an empty action; a name `a` has service
/// `a` and an empty resource and action (for dot-free `a`, `b`, `c`).
pub proof fn lemma_segments_of_name(a: Seq<char>, b: Seq<char>, c: Seq<char>)
    requires
        dot_free(a),
        dot_free(b),
        dot_free(c),
    ensures
        ({
            let n = a + seq!['.'] + b + seq!['.'] + c;
            segment(n, 0) == a && segment(n, 1) == b && segment(n, 2) == c
        }),
        ({
            let n = a + seq!['.'] + b;
            segment(n, 0) == a && segment(n, 1) == b && segment(n, 2) == Seq::<char>::empty()
        }),
        segment(a, 0) == a,
        segment(a, 1) == Seq::<char>::empty(),
        segment(a, 2) == Seq::<char>::empty(),
{
    let bc = b + seq!['.'] + c;
    assert(a + seq!['.'] + b + seq!['.'] + c =~= a + seq!['.'] + bc);
    lemma_segments_of_join(a, bc, 0);
    lemma_segments_of_join(a, bc, 1);
    lemma_segments_of_join(b, c, 0);
    lemma_segments_of_single(c, 0);
    lemma_segments_of_join(a, b, 0);
    lemma_segments_of_join(a, b, 1);
    lemma_segments_of_single(b, 0);
    lemma_segments_of_single(a, 0);
    lemma_segments_of_single(a, 1);
}

} // verus!
