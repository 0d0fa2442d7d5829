use iam_search::catalog::{GcpRoleResponse, IamPermission, IamRole, IamStage};

#[test]
fn test_parse_permission_name() {
    let perm = IamPermission::from_name("compute.instances.list".to_string());
    assert_eq!(perm.service, "compute");
    assert_eq!(perm.resource, "instances");
    assert_eq!(perm.action, "list");
}

#[test]
fn test_extract_keywords() {
    let keywords = IamRole::extract_keywords(
        "Compute Admin",
        "Full control of Google Compute Engine resources",
    );
    assert!(!keywords.is_empty());
    assert!(keywords.iter().any(|k| k.contains("compute")));
}

#[test]
fn test_permission_parsing() {
    let perm = IamPermission::from_name("compute.instances.list".to_string());
    assert_eq!(perm.service, "compute");
    assert_eq!(perm.resource, "instances");
    assert_eq!(perm.action, "list");
}

#[test]
fn test_permission_parsing_with_multiple_parts() {
    let perm = IamPermission::from_name("compute.disks.create".to_string());
    assert_eq!(perm.service, "compute");
    assert_eq!(perm.resource, "disks");
    assert_eq!(perm.action, "create");
}

#[test]
fn permission_with_missing_pieces() {
    let one = IamPermission::from_name("storage".to_string());
    assert_eq!((one.service.as_str(), one.resource.as_str(), one.action.as_str()), ("storage", "", ""));
    let two = IamPermission::from_name("storage.buckets".to_string());
    assert_eq!((two.service.as_str(), two.resource.as_str(), two.action.as_str()), ("storage", "buckets", ""));
    let four = IamPermission::from_name("a.b.c.d".to_string());
    assert_eq!((four.service.as_str(), four.resource.as_str(), four.action.as_str()), ("a", "b", "c"));
    let empty_piece = IamPermission::from_name("a..c".to_string());
    assert_eq!((empty_piece.service.as_str(), empty_piece.resource.as_str(), empty_piece.action.as_str()), ("a", "", "c"));
    assert!(one.roles_granting.is_empty());
    assert!(one.description.is_none());
}

#[test]
fn keywords_are_cleaned_distinct_and_in_order() {
    let keywords = IamRole::extract_keywords("Compute Admin", "Full control of Google Compute Engine resources");
    assert_eq!(keywords, vec!["compute", "admin", "full", "control", "google", "engine", "resources"]);
}

#[test]
fn keywords_skip_short_and_stop_words() {
    let keywords = IamRole::extract_keywords("The Viewer", "Read-only: view THE data, not edit!");
    assert_eq!(keywords, vec!["viewer", "readonly", "view", "data", "edit"]);
    assert!(IamRole::extract_keywords("", "").is_empty());
}

#[test]
fn role_from_upstream_description() {
    let role = IamRole::from_gcp(GcpRoleResponse {
        name: "roles/compute.admin".to_string(),
        title: "Compute Admin".to_string(),
        description: "Full control".to_string(),
        stage: "BETA".to_string(),
        included_permissions: vec!["compute.instances.list".to_string(), "compute.disks.get".to_string()],
        etag: "abc".to_string(),
        deleted: false,
    });
    assert_eq!(role.stage, IamStage::Beta);
    assert_eq!(role.permission_count, 2);
    assert_eq!(role.keywords, vec!["compute", "admin", "full", "control"]);
    assert_eq!(role.name, "roles/compute.admin");
    assert_eq!(role.etag, "abc");
}

#[test]
fn stage_labels() {
    assert_eq!(IamStage::from_label("ALPHA"), IamStage::Alpha);
    assert_eq!(IamStage::from_label("DEPRECATED"), IamStage::Deprecated);
    assert_eq!(IamStage::from_label("GA"), IamStage::Ga);
    assert_eq!(IamStage::from_label("EARLY_ACCESS"), IamStage::Ga);
    assert_eq!(IamStage::Beta.label(), "BETA");
    assert_eq!(IamStage::default(), IamStage::Ga);
}
