//! The query interface: request validation, the combined search, and text
//! escaping for rendered pages.

use vstd::prelude::*;
use crate::engine::{
    permission_hits, permission_result_is, role_hits, role_result_is, PermissionSearchResult,
    RoleSearchResult, SearchEngine, MAX_RESULTS,
};
use crate::errors::ApiError;
use crate::models::{mode_label, mode_named};
use crate::score::Score;
use crate::text::{char_is_space, chars_of, is_space, string_of};

verus! {

/// Longest query accepted, in characters.
pub const MAX_QUERY_LEN: usize = 100;

/// The fuzzy-similarity threshold of the query interface: 0.2.
pub open spec fn default_threshold() -> Score {
    Score { num: 1, den: 5 }
}

/// The number of leading white-space characters of `s`.
pub open spec fn leading_space(s: Seq<char>) -> nat
    decreases s.len(),
{
    if s.len() > 0 && is_space(s[0]) {
        1 + leading_space(s.drop_first())
    } else {
        0
    }
}

/// The number of trailing white-space characters of `s`.
pub open spec fn trailing_space(s: Seq<char>) -> nat
    decreases s.len(),
{
    if s.len() > 0 && is_space(s.last()) {
        1 + trailing_space(s.drop_last())
    } else {
        0
    }
}

/// `s` without leading and trailing white space, as `str::trim` gives it.
pub open spec fn trimmed(s: Seq<char>) -> Seq<char> {
    let a = leading_space(s);
    let rest = s.skip(a as int);
    rest.take(rest.len() - trailing_space(rest))
}

proof fn lemma_leading_bound(s: Seq<char>)
    ensures
        leading_space(s) <= s.len(),
    decreases s.len(),
{
    if s.len() > 0 && is_space(s[0]) {
        lemma_leading_bound(s.drop_first());
    }
}

proof fn lemma_trailing_bound(s: Seq<char>)
    ensures
        trailing_space(s) <= s.len(),
    decreases s.len(),
{
    if s.len() > 0 && is_space(s.last()) {
        lemma_trailing_bound(s.drop_last());
    }
}

/// `s` without leading and trailing white space.
pub fn trim_text(s: &str) -> (r: String)
    ensures
        r@ == trimmed(s@),
{
    let c = chars_of(s);
    let mut a: usize = 0;
    assert(c@.skip(0) =~= c@);
    while a < c.len() && char_is_space(c[a])
        invariant
            a <= c@.len(),
            c@ == s@,
            leading_space(s@) == a + leading_space(c@.skip(a as int)),
        decreases c.len() - a,
    {
        assert(c@.skip(a as int).drop_first() =~= c@.skip(a + 1));
        a += 1;
    }
    let ghost rest = c@.skip(a as int);
    let mut b: usize = c.len();
    assert(rest.take(rest.len() as int) =~= rest);
    while b > a && char_is_space(c[b - 1])
        invariant
            a <= b <= c@.len(),
            c@ == s@,
            rest == c@.skip(a as int),
            trailing_space(rest) == (c@.len() - b) + trailing_space(rest.take(b - a)),
        decreases b - a,
    {
        assert(rest.take(b - a).drop_last() =~= rest.take(b - a - 1));
        b -= 1;
    }
    let mut out: Vec<char> = Vec::new();
    let mut i: usize = a;
    while i < b
        invariant
            a <= i <= b <= c@.len(),
            out@ == c@.subrange(a as int, i as int),
        decreases b - i,
    {
        out.push(c[i]);
        i += 1;
        assert(out@ =~= c@.subrange(a as int, i as int));
    }
    proof {
        lemma_trailing_bound(rest.take(b - a));
        assert(out@ =~= rest.take(rest.len() - trailing_space(rest)));
    }
    string_of(&out)
}

/// The query text of a request, trimmed, or the reason it is refused: an
/// empty query, or one longer than a hundred characters.
pub fn validate_query(q: &str) -> (r: Result<String, ApiError>)
    ensures
        trimmed(q@).len() == 0 ==> r is Err && r->Err_0 is BadRequest && (r->Err_0->BadRequest_0)@
            == "Query parameter 'q' is required and cannot be empty"@,
        trimmed(q@).len() > MAX_QUERY_LEN ==> r is Err && r->Err_0 is BadRequest && (
        r->Err_0->BadRequest_0)@ == "Query too long (max 100 characters)"@,
        0 < trimmed(q@).len() <= MAX_QUERY_LEN ==> r is Ok && r->Ok_0@ == trimmed(q@),
{
    let t = trim_text(q);
    let n = t.as_str().unicode_len();
    if n == 0 {
        Err(ApiError::BadRequest(String::from_str("Query parameter 'q' is required and cannot be empty")))
    } else if n > MAX_QUERY_LEN {
        Err(ApiError::BadRequest(String::from_str("Query too long (max 100 characters)")))
    } else {
        Ok(t)
    }
}

/// The answer to a search: matching permissions and roles, the query as
/// searched and the mode's name.
#[derive(Clone, Debug)]
pub struct SearchData {
    pub permissions: Vec<PermissionSearchResult>,
    pub roles: Vec<RoleSearchResult>,
    pub query: String,
    pub mode: String,
}

/// Runs a search request against both tables: validates the query, then
/// searches permissions and roles in the named mode with the default fuzzy
/// threshold.
pub fn search(engine: &SearchEngine, q: &str, mode: &str) -> (r: Result<SearchData, ApiError>)
    requires
        engine.wf(),
    ensures
        (0 < trimmed(q@).len() <= MAX_QUERY_LEN) <==> r is Ok,
        r is Ok ==> ({
            let d = r->Ok_0;
            let query = trimmed(q@);
            let m = mode_named(mode@);
            let ph = permission_hits(
                engine.permission_table(),
                0,
                query,
                m,
                default_threshold(),
                MAX_RESULTS as nat,
            );
            let rh = role_hits(engine.role_table(), 0, query, m, default_threshold(), MAX_RESULTS as nat);
            &&& d.query@ == query
            &&& d.mode@ == mode_label(m)
            &&& d.permissions@.len() == ph.len()
            &&& forall|k: int|
                0 <= k < ph.len() ==> permission_result_is(
                    #[trigger] d.permissions@[k],
                    engine.role_table(),
                    engine.permission_table()[ph[k].0],
                    ph[k].1,
                )
            &&& d.roles@.len() == rh.len()
            &&& forall|k: int|
                0 <= k < rh.len() ==> role_result_is(
                    #[trigger] d.roles@[k],
                    engine.role_table()[rh[k].0],
                    rh[k].1,
                )
        }),
{
    let query = match validate_query(q) {
        Ok(t) => t,
        Err(e) => {
            return Err(e);
        },
    };
    let threshold = Score { num: 1, den: 5 };
    let permissions = engine.search_permissions(query.as_str(), mode, threshold);
    let roles = engine.search_roles(query.as_str(), mode, threshold);
    let m = crate::models::SearchMode::from_name(mode);
    Ok(SearchData { permissions, roles, query, mode: m.name() })
}

/// The HTML-escaped form of one character.
pub open spec fn escape_char(c: char) -> Seq<char> {
    if c == '&' {
        "&amp;"@
    } else if c == '<' {
        "&lt;"@
    } else if c == '>' {
        "&gt;"@
    } else if c == '"' {
        "&quot;"@
    } else if c == '\'' {
        "&#39;"@
    } else {
        seq![c]
    }
}

/// `s` with `&`, `<`, `>`, `"` and `'` replaced by their HTML entities.
pub open spec fn escaped(s: Seq<char>) -> Seq<char>
    decreases s.len(),
{
    if s.len() == 0 {
        Seq::empty()
    } else {
        escaped(s.drop_last()) + escape_char(s.last())
    }
}

/// Appends the characters of `lit` to `out`.
fn push_all(out: &mut Vec<char>, lit: &str)
    ensures
        final(out)@ == old(out)@ + lit@,
{
    let c = chars_of(lit);
    let mut i: usize = 0;
    while i < c.len()
        invariant
            i <= c@.len(),
            c@ == lit@,
            out@ == old(out)@ + c@.take(i as int),
        decreases c.len() - i,
    {
        out.push(c[i]);
        i += 1;
        assert(out@ =~= old(out)@ + c@.take(i as int));
    }
    assert(c@.take(c@.len() as int) =~= c@);
}

/// `s` escaped for HTML text and attribute values.
pub fn html_escape(s: &str) -> (r: String)
    ensures
        r@ == escaped(s@),
{
    let c = chars_of(s);
    let mut out: Vec<char> = Vec::new();
    let mut i: usize = 0;
    while i < c.len()
        invariant
            i <= c@.len(),
            c@ == s@,
            out@ == escaped(c@.take(i as int)),
        decreases c.len() - i,
    {
        let ch = c[i];
        proof {
            assert(c@.take(i + 1).drop_last() =~= c@.take(i as int));
        }
        if ch == '&' {
            push_all(&mut out, "&amp;");
        } else if ch == '<' {
            push_all(&mut out, "&lt;");
        } else if ch == '>' {
            push_all(&mut out, "&gt;");
        } else if ch == '"' {
            push_all(&mut out, "&quot;");
        } else if ch == '\'' {
            push_all(&mut out, "&#39;");
        } else {
            let ghost o0 = out@;
            out.push(ch);
            assert(out@ =~= o0 + seq![ch]);
        }
        i += 1;
    }
    assert(c@.take(c@.len() as int) =~= c@);
    string_of(&out)
}

} // verus!
