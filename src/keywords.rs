//! Search keywords drawn from a role's title and description.

use vstd::prelude::*;
use crate::catalog::{stage_named, GcpRoleResponse, IamRole, IamStage};
use crate::engine::{texts, with_names};
use crate::text::{
    char_is_alnum, char_is_space, chars_of, is_alnum, is_space, lower_of, same_text, string_of, to_lower,
};

verus! {

/// The words completed among the first `n` characters of `s`, and the word
/// in progress after them; words are maximal runs of non-space characters.
pub open spec fn word_scan(s: Seq<char>, n: int) -> (Seq<Seq<char>>, Seq<char>)
    decreases n,
{
    if n <= 0 {
        (Seq::empty(), Seq::empty())
    } else {
        let (done, cur) = word_scan(s, n - 1);
        if is_space(s[n - 1]) {
            if cur.len() > 0 {
                (done.push(cur), Seq::empty())
            } else {
                (done, Seq::empty())
            }
        } else {
            (done, cur.push(s[n - 1]))
        }
    }
}

/// The words of `s`, in order.
pub open spec fn words(s: Seq<char>) -> Seq<Seq<char>> {
    let (done, cur) = word_scan(s, s.len() as int);
    if cur.len() > 0 {
        done.push(cur)
    } else {
        done
    }
}

/// The letters and digits of `w`, in order.
pub open spec fn alnum_only(w: Seq<char>) -> Seq<char>
    decreases w.len(),
{
    if w.len() == 0 {
        Seq::empty()
    } else {
        let prev = alnum_only(w.drop_last());
        if is_alnum(w.last()) {
            prev.push(w.last())
        } else {
            prev
        }
    }
}

/// Common words that make poor keywords.
pub open spec fn is_stop_word(w: Seq<char>) -> bool {
    w == "the"@ || w == "and"@ || w == "for"@ || w == "you"@ || w == "all"@ || w == "not"@ || w
        == "but"@ || w == "can"@ || w == "her"@ || w == "was"@ || w == "one"@ || w == "our"@ || w
        == "out"@ || w == "day"@ || w == "get"@ || w == "has"@ || w == "him"@ || w == "his"@ || w
        == "how"@ || w == "its"@ || w == "may"@ || w == "new"@ || w == "now"@ || w == "old"@ || w
        == "see"@ || w == "way"@ || w == "who"@ || w == "boy"@ || w == "did"@
}

/// A cleaned word is kept as a keyword: longer than three characters and no
/// stop word.
pub open spec fn keeps(c: Seq<char>) -> bool {
    c.len() > 3 && !is_stop_word(c)
}

/// The cleaned words of `ws` that are kept, in order.
pub open spec fn keyword_candidates(ws: Seq<Seq<char>>) -> Seq<Seq<char>>
    decreases ws.len(),
{
    if ws.len() == 0 {
        Seq::empty()
    } else {
        let prev = keyword_candidates(ws.drop_last());
        let c = alnum_only(ws.last());
        if keeps(c) {
            prev.push(c)
        } else {
            prev
        }
    }
}

/// The keywords of a role: the distinct kept words of its lowercased title
/// and description, in order of first occurrence.
pub open spec fn keywords_of(title: Seq<char>, description: Seq<char>) -> Seq<Seq<char>> {
    with_names(Seq::empty(), keyword_candidates(words(lower_of(title + " "@ + description))))
}

proof fn lemma_candidates_step(ws: Seq<Seq<char>>, w: Seq<char>)
    ensures
        ({
            let cands = keyword_candidates(ws);
            let c = alnum_only(w);
            with_names(Seq::empty(), keyword_candidates(ws.push(w))) == if keeps(c) && !with_names(
                Seq::empty(),
                cands,
            ).contains(c) {
                with_names(Seq::empty(), cands).push(c)
            } else {
                with_names(Seq::empty(), cands)
            }
        }),
{
    let cands = keyword_candidates(ws);
    let c = alnum_only(w);
    assert(ws.push(w).drop_last() =~= ws);
    assert(keyword_candidates(ws.push(w)) == if keeps(c) {
        cands.push(c)
    } else {
        cands
    });
    if keeps(c) {
        assert(cands.push(c).drop_last() =~= cands);
    }
}

/// Whether `w` is a stop word.
fn stop_word(w: &str) -> (r: bool)
    ensures
        r == is_stop_word(w@),
{
    same_text(w, "the") || same_text(w, "and") || same_text(w, "for") || same_text(w, "you")
        || same_text(w, "all") || same_text(w, "not") || same_text(w, "but") || same_text(w, "can")
        || same_text(w, "her") || same_text(w, "was") || same_text(w, "one") || same_text(w, "our")
        || same_text(w, "out") || same_text(w, "day") || same_text(w, "get") || same_text(w, "has")
        || same_text(w, "him") || same_text(w, "his") || same_text(w, "how") || same_text(w, "its")
        || same_text(w, "may") || same_text(w, "new") || same_text(w, "now") || same_text(w, "old")
        || same_text(w, "see") || same_text(w, "way") || same_text(w, "who") || same_text(w, "boy")
        || same_text(w, "did")
}

/// Whether `v` holds `w`.
fn holds(v: &Vec<String>, w: &String) -> (r: bool)
    ensures
        r == texts(v@).contains(w@),
{
    let mut i: usize = 0;
    while i < v.len()
        invariant
            i <= v@.len(),
            forall|k: int| 0 <= k < i ==> v@[k]@ != w@,
        decreases v.len() - i,
    {
        if v[i] == *w {
            assert(texts(v@)[i as int] == w@);
            return true;
        }
        i += 1;
    }
    false
}

/// Adds the cleaned form of `word` to `out` if it is kept and new.
fn take_word(out: &mut Vec<String>, word: &Vec<char>)
    ensures
        ({
            let c = alnum_only(word@);
            texts(final(out)@) == if keeps(c) && !texts(old(out)@).contains(c) {
                texts(old(out)@).push(c)
            } else {
                texts(old(out)@)
            }
        }),
{
    let mut clean: Vec<char> = Vec::new();
    let mut i: usize = 0;
    while i < word.len()
        invariant
            i <= word@.len(),
            clean@ == alnum_only(word@.take(i as int)),
        decreases word.len() - i,
    {
        proof {
            assert(word@.take(i + 1).drop_last() =~= word@.take(i as int));
        }
        if char_is_alnum(word[i]) {
            clean.push(word[i]);
        }
        i += 1;
    }
    assert(word@.take(word@.len() as int) =~= word@);
    let cleaned = string_of(&clean);
    if cleaned.as_str().unicode_len() > 3 && !stop_word(cleaned.as_str()) && !holds(out, &cleaned) {
        let ghost o0 = out@;
        out.push(cleaned);
        assert(texts(out@) =~= texts(o0).push(clean@));
    }
}

impl IamRole {
    /// The keywords of a role's title and description.
    pub fn extract_keywords(title: &str, description: &str) -> (r: Vec<String>)
        ensures
            texts(r@) == keywords_of(title@, description@),
    {
        let mut joined = String::from_str(title);
        joined.append(" ");
        joined.append(description);
        let t = chars_of(to_lower(joined.as_str()).as_str());
        let mut out: Vec<String> = Vec::new();
        let mut cur: Vec<char> = Vec::new();
        let mut i: usize = 0;
        assert(texts(out@) =~= Seq::empty());
        while i < t.len()
            invariant
                i <= t@.len(),
                texts(out@) == with_names(Seq::empty(), keyword_candidates(word_scan(t@, i as int).0)),
                cur@ == word_scan(t@, i as int).1,
            decreases t.len() - i,
        {
            let ghost ws = word_scan(t@, i as int).0;
            let c = t[i];
            if char_is_space(c) {
                if cur.len() > 0 {
                    proof {
                        lemma_candidates_step(ws, cur@);
                        assert(word_scan(t@, i + 1) == (ws.push(cur@), Seq::<char>::empty()));
                    }
                    take_word(&mut out, &cur);
                    cur = Vec::new();
                    assert(cur@ =~= Seq::<char>::empty());
                } else {
                    assert(cur@ =~= Seq::<char>::empty());
                }
            } else {
                cur.push(c);
            }
            i += 1;
        }
        let ghost ws = word_scan(t@, t@.len() as int).0;
        if cur.len() > 0 {
            proof {
                lemma_candidates_step(ws, cur@);
            }
            take_word(&mut out, &cur);
        }
        assert(joined@ == title@ + " "@ + description@);
        out
    }

    /// A catalog role built from its upstream description: the stage label is
    /// read (an unknown one means general availability), the permissions are
    /// counted and the keywords drawn from the title and description.
    pub fn from_gcp(role: GcpRoleResponse) -> (r: IamRole)
        ensures
            r.name == role.name,
            r.title == role.title,
            r.description == role.description,
            r.stage == stage_named(role.stage@),
            r.included_permissions == role.included_permissions,
            r.etag == role.etag,
            r.deleted == role.deleted,
            r.permission_count == role.included_permissions@.len(),
            texts(r.keywords@) == keywords_of(role.title@, role.description@),
    {
        let stage = IamStage::from_label(role.stage.as_str());
        let permission_count = role.included_permissions.len();
        let keywords = Self::extract_keywords(role.title.as_str(), role.description.as_str());
        IamRole {
            name: role.name,
            title: role.title,
            description: role.description,
            stage,
            included_permissions: role.included_permissions,
            etag: role.etag,
            deleted: role.deleted,
            permission_count,
            keywords,
        }
    }
}

} // verus!
