use iam_search::engine::SearchEngine;
use iam_search::models::SearchMode;
use iam_search::score::Score;

fn value(s: Score) -> f64 {
    s.num as f64 / s.den as f64
}

fn threshold() -> Score {
    Score { num: 1, den: 5 }
}

fn viewer_catalog() -> SearchEngine {
    let mut e = SearchEngine::new();
    e.index_role(
        "roles/viewer".to_string(),
        "Viewer".to_string(),
        "Read access".to_string(),
        "GA".to_string(),
        vec!["compute.instances.list".to_string()],
    );
    e.finalize();
    e
}

#[test]
fn end_to_end_viewer_scenario() {
    let e = viewer_catalog();
    let perms = e.search_permissions("compute.instances.list", "exact", threshold());
    assert_eq!(perms.len(), 1);
    assert_eq!(value(perms[0].score), 1.0);
    assert_eq!(perms[0].granted_by_roles.len(), 1);
    assert_eq!(perms[0].granted_by_roles[0].name, "roles/viewer");
    assert_eq!(perms[0].granted_by_roles[0].title, "Viewer");
    assert_eq!(perms[0].granted_by_roles[0].stage, "GA");

    let roles = e.search_roles("view", "prefix", threshold());
    assert_eq!(roles.len(), 1);
    assert_eq!(value(roles[0].score), 0.9);
    assert_eq!(roles[0].sample_permissions, vec!["compute.instances.list"]);
    assert_eq!(roles[0].permission_count, 1);
}

#[test]
fn exact_mode_is_case_sensitive_and_whole() {
    let e = viewer_catalog();
    assert_eq!(e.search_permissions("Compute.Instances.List", "exact", threshold()).len(), 0);
    assert_eq!(e.search_permissions("compute.instances", "exact", threshold()).len(), 0);
    let roles = e.search_roles("roles/viewer", "exact", threshold());
    assert_eq!(roles.len(), 1);
    assert_eq!(value(roles[0].score), 1.0);
    assert_eq!(e.search_roles("Viewer", "exact", threshold()).len(), 0);
}

#[test]
fn prefix_mode_ignores_case() {
    let mut e = SearchEngine::new();
    e.index_role(
        "roles/a".to_string(),
        "A".to_string(),
        String::new(),
        "GA".to_string(),
        vec!["compute.instances.list".to_string(), "COMPUTE.INSTANCES.GET".to_string(), "storage.buckets.get".to_string()],
    );
    e.finalize();
    let r = e.search_permissions("compute.inst", "prefix", threshold());
    assert_eq!(r.len(), 2);
    assert_eq!(r[0].name, "compute.instances.list");
    assert_eq!(r[1].name, "COMPUTE.INSTANCES.GET");
    assert!(r.iter().all(|p| value(p.score) == 0.9));
}

#[test]
fn fuzzy_substring_scores_fixed() {
    let e = viewer_catalog();
    let r = e.search_permissions("instances", "fuzzy", threshold());
    assert_eq!(r.len(), 1);
    assert_eq!(r[0].name, "compute.instances.list");
    assert_eq!(value(r[0].score), 0.85);
}

#[test]
fn fuzzy_trigram_similarity() {
    let mut e = SearchEngine::new();
    e.index_permission("abcd".to_string(), "abcd".to_string());
    // "abce" has trigrams {abc, bce}; "abcd" has {abc, bcd}: 1 shared of 3.
    let r = e.search_permissions("abce", "fuzzy", threshold());
    assert_eq!(r.len(), 1);
    assert_eq!((r[0].score.num, r[0].score.den), (1, 3));
    let none = e.search_permissions("abce", "fuzzy", Score { num: 1, den: 2 });
    assert_eq!(none.len(), 0);
    let unrelated = e.search_permissions("xyz", "fuzzy", threshold());
    assert_eq!(unrelated.len(), 0);
}

#[test]
fn unknown_mode_falls_back_to_fuzzy() {
    let e = viewer_catalog();
    let r = e.search_permissions("instances", "nonsense", threshold());
    assert_eq!(r.len(), 1);
    assert_eq!(value(r[0].score), 0.85);
    assert_eq!(SearchMode::from_name("nonsense"), SearchMode::Fuzzy);
    assert_eq!(SearchMode::from_name("exact"), SearchMode::Exact);
    assert_eq!(SearchMode::from_name("prefix"), SearchMode::Prefix);
}

#[test]
fn role_fuzzy_takes_best_of_name_and_title() {
    let mut e = SearchEngine::new();
    e.index_role("zzzz".to_string(), "abcd".to_string(), String::new(), "GA".to_string(), vec![]);
    let r = e.search_roles("abce", "fuzzy", threshold());
    assert_eq!(r.len(), 1);
    assert_eq!((r[0].score.num, r[0].score.den), (1, 3));
    let by_title = e.search_roles("bcd", "fuzzy", threshold());
    assert_eq!(value(by_title[0].score), 0.85);
}

#[test]
fn results_are_capped() {
    let mut e = SearchEngine::new();
    let mut perms = Vec::new();
    for i in 0..25 {
        perms.push(format!("svc.res{}.get", i));
    }
    e.index_role("roles/big".to_string(), "Big".to_string(), String::new(), "GA".to_string(), perms);
    for i in 0..7 {
        e.index_role(format!("roles/r{}", i), format!("R{}", i), String::new(), "GA".to_string(), vec!["svc.res0.get".to_string()]);
    }
    e.finalize();
    let r = e.search_permissions("svc.", "prefix", threshold());
    assert_eq!(r.len(), 20);
    assert_eq!(r[0].name, "svc.res0.get");
    assert_eq!(r[19].name, "svc.res19.get");
    assert_eq!(r[0].granted_by_roles.len(), 5);
    assert_eq!(r[0].granted_by_roles[0].name, "roles/big");
    assert_eq!(r[0].granted_by_roles[4].name, "roles/r3");
    let roles = e.search_roles("roles/big", "exact", threshold());
    assert_eq!(roles[0].permission_count, 25);
    assert_eq!(roles[0].sample_permissions.len(), 5);
    assert_eq!(roles[0].sample_permissions[4], "svc.res4.get");
}

#[test]
fn reindexing_permissions_is_idempotent() {
    let mut e = SearchEngine::new();
    e.index_role("roles/a".to_string(), "A".to_string(), String::new(), "GA".to_string(), vec!["a.b.c".to_string(), "a.b.c".to_string()]);
    assert_eq!(e.stats(), (1, 1));
    e.index_permission("a.b.c".to_string(), "other".to_string());
    e.index_role("roles/b".to_string(), "B".to_string(), String::new(), "GA".to_string(), vec!["a.b.c".to_string()]);
    assert_eq!(e.stats(), (1, 2));
    e.index_permission("x.y".to_string(), "x".to_string());
    assert_eq!(e.stats(), (2, 2));
    e.finalize();
    let r = e.search_permissions("a.b.c", "exact", threshold());
    assert_eq!((r[0].service.as_str(), r[0].resource.as_str(), r[0].action.as_str()), ("a", "b", "c"));
    let s = e.search_permissions("x.y", "exact", threshold());
    assert_eq!((s[0].service.as_str(), s[0].resource.as_str(), s[0].action.as_str()), ("x", "y", ""));
    assert!(s[0].granted_by_roles.is_empty());
}

#[test]
fn role_overwrite_is_last_write_wins() {
    let mut e = SearchEngine::new();
    e.index_role("roles/a".to_string(), "Old".to_string(), String::new(), "BETA".to_string(), vec!["p.q.r".to_string()]);
    e.index_role("roles/a".to_string(), "New".to_string(), String::new(), "GA".to_string(), vec!["s.t.u".to_string()]);
    e.finalize();
    assert_eq!(e.stats(), (2, 1));
    let r = e.search_roles("roles/a", "exact", threshold());
    assert_eq!(r[0].title, "New");
    assert_eq!(r[0].stage, "GA");
    let old = e.search_permissions("p.q.r", "exact", threshold());
    assert!(old[0].granted_by_roles.is_empty());
    let new = e.search_permissions("s.t.u", "exact", threshold());
    assert_eq!(new[0].granted_by_roles.len(), 1);
}

#[test]
fn queries_before_finalize_show_no_grantors() {
    let mut e = SearchEngine::new();
    e.index_role("roles/a".to_string(), "A".to_string(), String::new(), "GA".to_string(), vec!["p.q.r".to_string()]);
    let r = e.search_permissions("p.q.r", "exact", threshold());
    assert_eq!(r.len(), 1);
    assert!(r[0].granted_by_roles.is_empty());
    e.finalize();
    let r = e.search_permissions("p.q.r", "exact", threshold());
    assert_eq!(r[0].granted_by_roles.len(), 1);
}

#[test]
fn finalize_lists_every_grantor() {
    let mut e = SearchEngine::new();
    e.index_role("roles/one".to_string(), "One".to_string(), String::new(), "GA".to_string(), vec!["p.q.r".to_string(), "x.y.z".to_string()]);
    e.index_role("roles/two".to_string(), "Two".to_string(), String::new(), "BETA".to_string(), vec!["p.q.r".to_string()]);
    e.finalize();
    let r = e.search_permissions("p.q.r", "exact", threshold());
    let names: Vec<&str> = r[0].granted_by_roles.iter().map(|s| s.name.as_str()).collect();
    assert_eq!(names, vec!["roles/one", "roles/two"]);
    assert_eq!(r[0].granted_by_roles[1].stage, "BETA");
}

#[test]
fn single_mode_searches() {
    let e = viewer_catalog();
    let x = e.search_exact("compute.instances.list").unwrap();
    assert_eq!(x.item, "compute.instances.list");
    assert_eq!(value(x.score), 1.0);
    assert!(e.search_exact("compute").is_none());
    let p = e.search_prefix("COMPUTE");
    assert_eq!(p.len(), 1);
    assert_eq!(value(p[0].score), 0.8);
    let f = e.search_fuzzy("instances", threshold());
    assert_eq!(value(f[0].score), 0.85);
}

#[test]
fn empty_catalog_finds_nothing() {
    let e = SearchEngine::new();
    assert_eq!(e.stats(), (0, 0));
    assert!(e.search_permissions("a", "fuzzy", threshold()).is_empty());
    assert!(e.search_roles("a", "prefix", threshold()).is_empty());
}

#[test]
fn frozen_state_follows_finalize() {
    let mut e = SearchEngine::new();
    assert!(!e.is_finalized());
    e.index_role("roles/a".to_string(), "A".to_string(), String::new(), "GA".to_string(), vec!["p.q.r".to_string()]);
    assert!(!e.is_finalized());
    e.finalize();
    assert!(e.is_finalized());
    e.index_permission("s.t.u".to_string(), "s".to_string());
    assert!(e.is_finalized());
    e.index_role("roles/b".to_string(), "B".to_string(), String::new(), "GA".to_string(), vec!["p.q.r".to_string()]);
    assert!(!e.is_finalized());
    let stale = e.search_permissions("p.q.r", "exact", threshold());
    assert_eq!(stale[0].granted_by_roles.len(), 1);
    e.finalize();
    let fresh = e.search_permissions("p.q.r", "exact", threshold());
    assert_eq!(fresh[0].granted_by_roles.len(), 2);
}
