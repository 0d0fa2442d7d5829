//! Trigram sets and their Jaccard similarity.

use vstd::prelude::*;
use crate::score::Score;
use crate::text::same_chars;

verus! {

/// The character sequences held by a list of character vectors.
pub open spec fn views(v: Seq<Vec<char>>) -> Seq<Seq<char>> {
    v.map_values(|g: Vec<char>| g@)
}

/// The n-grams of `s`, left to right: every window of `n` consecutive
/// characters, or `s` itself when it is shorter than `n`.
pub open spec fn ngrams(s: Seq<char>, n: nat) -> Seq<Seq<char>> {
    if s.len() < n {
        seq![s]
    } else {
        Seq::new((s.len() - n + 1) as nat, |i: int| s.subrange(i, i + n))
    }
}

/// The set of trigrams of a text.
pub open spec fn trigram_set(s: Seq<char>) -> Set<Seq<char>> {
    ngrams(s, 3).to_set()
}

/// Numerator of the Jaccard index `|a ∩ b| / |a ∪ b|`; two empty sets are
/// maximally similar.
pub open spec fn jaccard_num(a: Set<Seq<char>>, b: Set<Seq<char>>) -> nat {
    if a.len() == 0 && b.len() == 0 {
        1
    } else {
        a.intersect(b).len()
    }
}

/// Denominator of the Jaccard index `|a ∩ b| / |a ∪ b|`.
pub open spec fn jaccard_den(a: Set<Seq<char>>, b: Set<Seq<char>>) -> nat {
    if a.len() == 0 && b.len() == 0 {
        1
    } else {
        a.union(b).len()
    }
}

/// The Jaccard index of two sets as a score.
pub open spec fn jaccard(a: Set<Seq<char>>, b: Set<Seq<char>>) -> Score {
    Score { num: jaccard_num(a, b) as usize, den: jaccard_den(a, b) as usize }
}

/// The trigram lists of two texts are short enough for their combined size to
/// be counted in a machine word (always the case for texts held in memory).
pub open spec fn countable(q: Seq<char>, t: Seq<char>) -> bool {
    ngrams(q, 3).len() + ngrams(t, 3).len() <= usize::MAX
}

/// Trigram similarity of a query and a text, both already lowercased.
pub open spec fn similarity(q: Seq<char>, t: Seq<char>) -> Score {
    if countable(q, t) {
        jaccard(trigram_set(q), trigram_set(t))
    } else {
        Score { num: 0, den: 1 }
    }
}

/// A copy of `text[from..to]`.
fn window(text: &Vec<char>, from: usize, to: usize) -> (r: Vec<char>)
    requires
        from <= to <= text@.len(),
    ensures
        r@ == text@.subrange(from as int, to as int),
{
    let mut r: Vec<char> = Vec::new();
    let mut i: usize = from;
    while i < to
        invariant
            from <= i <= to <= text@.len(),
            r@ == text@.subrange(from as int, i as int),
        decreases to - i,
    {
        r.push(text[i]);
        i += 1;
        assert(r@ =~= text@.subrange(from as int, i as int));
    }
    r
}

/// The n-grams of a text, as `ngrams` describes them.
pub fn extract_ngrams(text: &Vec<char>, n: usize) -> (r: Vec<Vec<char>>)
    requires
        n > 0,
    ensures
        views(r@) == ngrams(text@, n as nat),
{
    let mut r: Vec<Vec<char>> = Vec::new();
    if text.len() < n {
        r.push(window(text, 0, text.len()));
        assert(text@.subrange(0, text@.len() as int) =~= text@);
        assert(views(r@) =~= ngrams(text@, n as nat));
        return r;
    }
    let count = text.len() - n + 1;
    let mut i: usize = 0;
    while i < count
        invariant
            n <= text@.len(),
            text@.len() == text.len(),
            count == text@.len() - n + 1,
            i <= count,
            r@.len() == i,
            views(r@) == ngrams(text@, n as nat).take(i as int),
        decreases count - i,
    {
        let ghost prev = r@;
        let w = window(text, i, i + n);
        r.push(w);
        proof {
            let g = ngrams(text@, n as nat);
            assert(g[i as int] == text@.subrange(i as int, i + n));
            assert forall|k: int| 0 <= k <= i implies views(r@)[k] == g.take(i + 1)[k] by {
                if k < i {
                    assert(r@[k] == prev[k]);
                    assert(views(prev)[k] == g.take(i as int)[k]);
                }
            }
        }
        i += 1;
        assert(views(r@) =~= ngrams(text@, n as nat).take(i as int));
    }
    assert(ngrams(text@, n as nat).take(count as int) =~= ngrams(text@, n as nat));
    r
}

/// Whether `g` equals one of the first `end` entries of `v`.
fn occurs_in(v: &Vec<Vec<char>>, g: &Vec<char>, end: usize) -> (r: bool)
    requires
        end <= v@.len(),
    ensures
        r == views(v@).take(end as int).contains(g@),
{
    let mut j: usize = 0;
    while j < end
        invariant
            end <= v@.len(),
            j <= end,
            forall|k: int| 0 <= k < j ==> views(v@)[k] != g@,
        decreases end - j,
    {
        if same_chars(&v[j], g) {
            assert(views(v@).take(end as int)[j as int] == g@);
            return true;
        }
        j += 1;
    }
    false
}

proof fn lemma_take_push_to_set(s: Seq<Seq<char>>, i: int)
    requires
        0 <= i < s.len(),
    ensures
        s.take(i + 1).to_set() == s.take(i).to_set().insert(s[i]),
{
    assert(s.take(i + 1) =~= s.take(i).push(s[i]));
    s.take(i).lemma_push_to_set_commute(s[i]);
}

/// Counts the distinct entries of `v`: the size of its set.
fn count_distinct(v: &Vec<Vec<char>>) -> (r: usize)
    ensures
        r == views(v@).to_set().len(),
        r <= v@.len(),
{
    let ghost a = views(v@);
    let mut d: usize = 0;
    let mut i: usize = 0;
    assert(a.take(0).to_set() =~= Set::empty());
    while i < v.len()
        invariant
            a == views(v@),
            i <= v@.len(),
            d <= i,
            d == a.take(i as int).to_set().len(),
        decreases v.len() - i,
    {
        proof {
            lemma_take_push_to_set(a, i as int);
            vstd::seq_lib::seq_to_set_is_finite(a.take(i as int));
        }
        if !occurs_in(v, &v[i], i) {
            d += 1;
        }
        i += 1;
    }
    assert(a.take(v@.len() as int) =~= a);
    d
}

/// Counts the distinct entries of `u` that also occur in `v`.
fn count_shared(u: &Vec<Vec<char>>, v: &Vec<Vec<char>>) -> (r: usize)
    ensures
        r == views(u@).to_set().intersect(views(v@).to_set()).len(),
{
    let ghost a = views(u@);
    let ghost b = views(v@).to_set();
    let mut c: usize = 0;
    let mut i: usize = 0;
    assert(a.take(0).to_set().intersect(b) =~= Set::empty());
    while i < u.len()
        invariant
            a == views(u@),
            b == views(v@).to_set(),
            i <= u@.len(),
            c <= i,
            c == a.take(i as int).to_set().intersect(b).len(),
        decreases u.len() - i,
    {
        let ghost s = a.take(i as int).to_set();
        proof {
            lemma_take_push_to_set(a, i as int);
            vstd::seq_lib::seq_to_set_is_finite(a.take(i as int));
            assert(views(v@).take(v@.len() as int) =~= views(v@));
        }
        if !occurs_in(u, &u[i], i) && occurs_in(v, &u[i], v.len()) {
            assert(s.insert(a[i as int]).intersect(b) =~= s.intersect(b).insert(a[i as int]));
            c += 1;
        } else {
            assert(s.insert(a[i as int]).intersect(b) =~= s.intersect(b));
        }
        i += 1;
    }
    assert(a.take(u@.len() as int) =~= a);
    c
}

/// Jaccard similarity of the sets of two n-gram lists.
pub fn calculate_similarity(set1: &Vec<Vec<char>>, set2: &Vec<Vec<char>>) -> (r: Score)
    requires
        set1@.len() + set2@.len() <= usize::MAX,
    ensures
        r == jaccard(views(set1@).to_set(), views(set2@).to_set()),
        r.num == jaccard_num(views(set1@).to_set(), views(set2@).to_set()),
        r.den == jaccard_den(views(set1@).to_set(), views(set2@).to_set()),
{
    let ghost a = views(set1@).to_set();
    let ghost b = views(set2@).to_set();
    let d1 = count_distinct(set1);
    let d2 = count_distinct(set2);
    if d1 == 0 && d2 == 0 {
        return Score { num: 1, den: 1 };
    }
    let shared = count_shared(set1, set2);
    proof {
        vstd::seq_lib::seq_to_set_is_finite(views(set1@));
        vstd::seq_lib::seq_to_set_is_finite(views(set2@));
        vstd::set_lib::lemma_set_intersect_union_lens(a, b);
        vstd::set_lib::lemma_len_intersect(b, a);
        assert(a.intersect(b) =~= b.intersect(a));
    }
    Score { num: shared, den: d1 + (d2 - shared) }
}

/// Trigram similarity between a text whose trigram list is `qg` and the
/// text `t`.
pub fn similarity_to(qg: &Vec<Vec<char>>, t: &Vec<char>) -> (r: Score)
    ensures
        forall|q: Seq<char>| views(qg@) == ngrams(q, 3) ==> r == similarity(q, t@),
{
    let tg = extract_ngrams(t, 3);
    if qg.len() <= usize::MAX - tg.len() {
        calculate_similarity(qg, &tg)
    } else {
        Score { num: 0, den: 1 }
    }
}

proof fn lemma_trigram_set_size(s: Seq<char>)
    ensures
        trigram_set(s).finite(),
        1 <= trigram_set(s).len() <= ngrams(s, 3).len(),
{
    let g = ngrams(s, 3);
    vstd::seq_lib::seq_to_set_is_finite(g);
    g.lemma_cardinality_of_set();
    assert(g.len() > 0);
    assert(g.to_set().contains(g[0]));
    if g.to_set().len() == 0 {
        vstd::set_lib::lemma_set_empty_equivalency_len(g.to_set());
    }
}

/// The trigram similarity of two texts is a fraction in `[0, 1]`. Identical
/// texts (two empty texts among them) score exactly 1, and texts whose trigram
/// sets are disjoint score exactly 0.
pub proof fn lemma_similarity_bounds(q: Seq<char>, t: Seq<char>)
    ensures
        similarity(q, t).valid(),
        similarity(q, t).num <= similarity(q, t).den,
        q == t && countable(q, t) ==> similarity(q, t).num == similarity(q, t).den,
        trigram_set(q).disjoint(trigram_set(t)) ==> similarity(q, t).num == 0,
{
    if countable(q, t) {
        let a = trigram_set(q);
        let b = trigram_set(t);
        lemma_trigram_set_size(q);
        lemma_trigram_set_size(t);
        vstd::set_lib::lemma_set_intersect_union_lens(a, b);
        vstd::set_lib::lemma_len_subset(a.intersect(b), a.union(b));
        vstd::set_lib::lemma_len_subset(a, a.union(b));
        if q == t {
            assert(a.intersect(b) =~= a.union(b));
        }
        if a.disjoint(b) {
            assert(a.intersect(b) =~= Set::empty());
        }
    }
}

} // verus!
