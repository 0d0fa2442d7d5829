//! Request and response shapes of the query interface.

use vstd::prelude::*;
use crate::text::same_text;

verus! {

/// How a query is matched against names and titles.
#[derive(Clone, Copy, Debug, PartialEq, Eq, Structural)]
pub enum SearchMode {
    Prefix,
    Exact,
    Fuzzy,
}

/// The mode a mode name selects: `"exact"`, `"prefix"`, and fuzzy matching
/// for any other name.
pub open spec fn mode_named(s: Seq<char>) -> SearchMode {
    if s == "exact"@ {
        SearchMode::Exact
    } else if s == "prefix"@ {
        SearchMode::Prefix
    } else {
        SearchMode::Fuzzy
    }
}

/// The lowercase name of a mode.
pub open spec fn mode_label(m: SearchMode) -> Seq<char> {
    match m {
        SearchMode::Exact => "exact"@,
        SearchMode::Prefix => "prefix"@,
        SearchMode::Fuzzy => "fuzzy"@,
    }
}

impl SearchMode {
    /// The mode a mode name selects; an unknown name falls back to fuzzy
    /// matching.
    pub fn from_name(s: &str) -> (r: SearchMode)
        ensures
            r == mode_named(s@),
    {
        if same_text(s, "exact") {
            SearchMode::Exact
        } else if same_text(s, "prefix") {
            SearchMode::Prefix
        } else {
            SearchMode::Fuzzy
        }
    }

    /// The lowercase name of the mode.
    pub fn name(&self) -> (r: String)
        ensures
            r@ == mode_label(*self),
            mode_named(r@) == *self,
    {
        proof {
            reveal_strlit("exact");
            reveal_strlit("prefix");
            reveal_strlit("fuzzy");
            assert("fuzzy"@[0] != "exact"@[0]);
            assert("fuzzy"@.len() != "prefix"@.len());
            assert("prefix"@.len() != "exact"@.len());
        }
        match self {
            SearchMode::Exact => String::from_str("exact"),
            SearchMode::Prefix => String::from_str("prefix"),
            SearchMode::Fuzzy => String::from_str("fuzzy"),
        }
    }
}

impl Default for SearchMode {
    fn default() -> (r: SearchMode)
        ensures
            r == SearchMode::Prefix,
    {
        SearchMode::Prefix
    }
}

/// A search request: the query text, the mode, and paging.
#[derive(Clone, Debug)]
pub struct SearchRequest {
    pub q: String,
    pub mode: SearchMode,
    pub limit: usize,
    pub offset: usize,
}

/// The envelope of every answer of the query interface.
#[derive(Clone, Debug)]
pub struct ApiResponse<T> {
    pub success: bool,
    pub data: T,
    pub error: Option<String>,
}

/// The mode of a request that names none.
pub fn default_mode() -> (r: SearchMode)
    ensures
        r == SearchMode::Prefix,
{
    SearchMode::Prefix
}

/// The page size of a request that names none.
pub fn default_limit() -> (r: usize)
    ensures
        r == 10,
{
    10
}

} // verus!
