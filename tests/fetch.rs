use iam_search::catalog::{GcpRoleResponse, GcpRolesResponse, IamStage, IamRole};
use iam_search::errors::ScraperError;
use iam_search::fetch::{collect_permissions, status_error, FetchAction, FetchEvent, FetchState};

fn upstream_role(name: &str, perms: &[&str]) -> GcpRoleResponse {
    GcpRoleResponse {
        name: name.to_string(),
        title: "Title".to_string(),
        description: String::new(),
        stage: "GA".to_string(),
        included_permissions: perms.iter().map(|p| p.to_string()).collect(),
        etag: "e".to_string(),
        deleted: false,
    }
}

#[test]
fn paging_until_the_last_page() {
    let mut s = FetchState::new();
    assert!(matches!(s.start(), FetchAction::Request { page_token: None }));
    let a = s.step(FetchEvent::Page(GcpRolesResponse {
        roles: vec![upstream_role("roles/a", &["x.y.z"]), upstream_role("roles/b", &[])],
        next_page_token: Some("t1".to_string()),
    }));
    match a {
        FetchAction::Request { page_token } => assert_eq!(page_token.as_deref(), Some("t1")),
        other => panic!("unexpected {:?}", other),
    }
    let b = s.step(FetchEvent::Page(GcpRolesResponse {
        roles: vec![upstream_role("roles/c", &["x.y.z", "p.q"])],
        next_page_token: None,
    }));
    assert!(matches!(b, FetchAction::Finished));
    let names: Vec<&str> = s.roles.iter().map(|r| r.name.as_str()).collect();
    assert_eq!(names, vec!["roles/a", "roles/b", "roles/c"]);
    let raw = s.finish("2024-01-03T00:00:00Z".to_string());
    let perms: Vec<&str> = raw.permissions.iter().map(|p| p.name.as_str()).collect();
    assert_eq!(perms, vec!["x.y.z", "p.q"]);
    assert_eq!(raw.permissions[1].resource, "q");
    assert_eq!(raw.fetched_at, "2024-01-03T00:00:00Z");
}

#[test]
fn rate_limits_back_off_then_pause() {
    let mut s = FetchState::new();
    let mut waits = Vec::new();
    for _ in 0..7 {
        match s.step(FetchEvent::Error(ScraperError::GcpRateLimitError("slow".to_string()))) {
            FetchAction::Retry { millis, page_token } => {
                assert!(page_token.is_none());
                waits.push(millis);
            }
            other => panic!("unexpected {:?}", other),
        }
    }
    assert_eq!(waits, vec![100, 200, 400, 800, 1600, 10000, 100]);
}

#[test]
fn other_errors_end_the_run() {
    let mut s = FetchState::new();
    match s.step(FetchEvent::Error(ScraperError::GcpAuthError("no".to_string()))) {
        FetchAction::Failed(ScraperError::GcpAuthError(m)) => assert_eq!(m, "no"),
        other => panic!("unexpected {:?}", other),
    }
}

#[test]
fn answers_by_status() {
    assert!(status_error(200, "200 OK", "").is_none());
    assert!(matches!(status_error(401, "401 Unauthorized", ""), Some(ScraperError::GcpAuthError(_))));
    assert!(matches!(status_error(403, "403 Forbidden", ""), Some(ScraperError::GcpAuthError(_))));
    assert!(status_error(429, "429 Too Many Requests", "").unwrap().is_rate_limit_error());
    match status_error(500, "500 Internal Server Error", "boom") {
        Some(ScraperError::GcpApiError(m)) => assert_eq!(m, "GCP API error (500 Internal Server Error): boom"),
        other => panic!("unexpected {:?}", other),
    }
}

#[test]
fn distinct_permissions_of_roles() {
    let roles: Vec<IamRole> = vec![
        IamRole::from_gcp(upstream_role("roles/a", &["b.c.d", "a.b.c"])),
        IamRole::from_gcp(upstream_role("roles/b", &["a.b.c", "e"])),
    ];
    assert_eq!(roles[0].stage, IamStage::Ga);
    let perms = collect_permissions(&roles);
    let names: Vec<&str> = perms.iter().map(|p| p.name.as_str()).collect();
    assert_eq!(names, vec!["b.c.d", "a.b.c", "e"]);
    assert_eq!(perms[2].service, "e");
    assert_eq!(perms[2].action, "");
}
