use iam_search::models::{default_limit, default_mode, SearchMode};
use iam_search::ngram::{calculate_similarity, extract_ngrams};
use iam_search::score::Score;
use iam_search::service::{html_escape, search, trim_text, validate_query};
use iam_search::engine::SearchEngine;
use iam_search::errors::ApiError;

fn grams(s: &str) -> Vec<Vec<char>> {
    extract_ngrams(&s.chars().collect(), 3)
}

#[test]
fn ngrams_of_short_and_long_texts() {
    assert_eq!(grams("ab"), vec![vec!['a', 'b']]);
    assert_eq!(grams(""), vec![Vec::<char>::new()]);
    assert_eq!(grams("abcd"), vec![vec!['a', 'b', 'c'], vec!['b', 'c', 'd']]);
}

#[test]
fn jaccard_bounds() {
    let same = calculate_similarity(&grams("instances"), &grams("instances"));
    assert_eq!(same.num, same.den);
    let empty = calculate_similarity(&grams(""), &grams(""));
    assert_eq!((empty.num, empty.den), (1, 1));
    let disjoint = calculate_similarity(&grams("abc"), &grams("xyz"));
    assert_eq!(disjoint.num, 0);
    assert!(disjoint.den > 0);
    let none = calculate_similarity(&Vec::new(), &Vec::new());
    assert_eq!((none.num, none.den), (1, 1));
    let rep = calculate_similarity(&grams("aaaa"), &grams("aaa"));
    assert_eq!((rep.num, rep.den), (1, 1));
    let part = calculate_similarity(&grams("abcd"), &grams("abce"));
    assert_eq!((part.num, part.den), (1, 3));
}

#[test]
fn score_order() {
    let a = Score { num: 1, den: 3 };
    let b = Score { num: 1, den: 5 };
    assert!(a.is_at_least(&b));
    assert!(!b.is_at_least(&a));
    assert_eq!(b.max(a), a);
}

#[test]
fn escaping_html() {
    assert_eq!(html_escape("<a href=\"x\">Tom & Jerry's</a>"), "&lt;a href=&quot;x&quot;&gt;Tom &amp; Jerry&#39;s&lt;/a&gt;");
    assert_eq!(html_escape("plain"), "plain");
}

#[test]
fn query_validation() {
    assert_eq!(trim_text("  view \n"), "view");
    assert_eq!(validate_query(" view ").unwrap(), "view");
    match validate_query("   ") {
        Err(ApiError::BadRequest(m)) => assert_eq!(m, "Query parameter 'q' is required and cannot be empty"),
        _ => panic!("expected a refusal"),
    }
    let long = "x".repeat(101);
    match validate_query(&long) {
        Err(ApiError::BadRequest(m)) => assert_eq!(m, "Query too long (max 100 characters)"),
        _ => panic!("expected a refusal"),
    }
    assert!(validate_query(&"x".repeat(100)).is_ok());
}

#[test]
fn combined_search() {
    let mut e = SearchEngine::new();
    e.index_role("roles/viewer".to_string(), "Viewer".to_string(), String::new(), "GA".to_string(), vec!["compute.instances.list".to_string()]);
    e.finalize();
    let d = search(&e, "  view ", "prefix").unwrap();
    assert_eq!(d.query, "view");
    assert_eq!(d.mode, "prefix");
    assert_eq!(d.roles.len(), 1);
    assert_eq!(d.permissions.len(), 0);
    let f = search(&e, "instances", "whatever").unwrap();
    assert_eq!(f.mode, "fuzzy");
    assert_eq!(f.permissions.len(), 1);
    assert!(search(&e, "", "exact").is_err());
}

#[test]
fn request_defaults() {
    assert_eq!(default_mode(), SearchMode::Prefix);
    assert_eq!(default_limit(), 10);
    assert_eq!(SearchMode::default(), SearchMode::Prefix);
    assert_eq!(SearchMode::Fuzzy.name(), "fuzzy");
}
