use iam_search::catalog::{IamPermission, IamRole, IamStage, RawGcpData};
use iam_search::transformer::DataTransformer;

fn create_test_role(name: &str, permissions: Vec<String>) -> IamRole {
    IamRole {
        name: name.to_string(),
        title: format!("{} Title", name),
        description: format!("{} Description", name),
        stage: IamStage::Ga,
        included_permissions: permissions,
        etag: "test-etag".to_string(),
        deleted: false,
        permission_count: 0,
        keywords: vec![],
    }
}

fn create_test_permission(name: &str) -> IamPermission {
    IamPermission::from_name(name.to_string())
}

#[test]
fn test_transformer_creation() {
    let _transformer = DataTransformer::new();
    let _transformer2 = DataTransformer::default();
    assert_eq!(std::mem::size_of::<DataTransformer>(), 0);
}

#[test]
fn test_build_indexes() {
    let transformer = DataTransformer::new();

    let roles = vec![
        create_test_role("roles/admin", vec!["compute.instances.list".to_string()]),
        create_test_role("roles/viewer", vec!["compute.instances.get".to_string()]),
    ];

    let permissions = vec![
        create_test_permission("compute.instances.list"),
        create_test_permission("compute.instances.get"),
    ];

    let indexes = transformer.build_indexes(&roles, &permissions);

    assert_eq!(indexes.roles_by_name.len(), 2);
    assert_eq!(indexes.permissions_by_name.len(), 2);
    assert_eq!(indexes.permissions_by_service.len(), 1);
    assert!(indexes.permissions_by_service.contains_key("compute"));
}

#[test]
fn test_build_role_permission_references() {
    let transformer = DataTransformer::new();

    let mut roles = vec![create_test_role(
        "roles/admin",
        vec!["compute.instances.list".to_string(), "compute.instances.create".to_string()],
    )];

    let mut permissions = vec![
        create_test_permission("compute.instances.list"),
        create_test_permission("compute.instances.create"),
    ];

    transformer.build_role_permission_references(&mut roles, &mut permissions);

    assert_eq!(permissions[0].roles_granting.len(), 1);
    assert_eq!(permissions[0].roles_granting[0], "roles/admin");
    assert_eq!(permissions[1].roles_granting.len(), 1);
    assert_eq!(permissions[1].roles_granting[0], "roles/admin");
}

#[test]
fn test_transform_raw_data() {
    let transformer = DataTransformer::new();

    let raw_data = RawGcpData {
        roles: vec![create_test_role("roles/compute.admin", vec!["compute.instances.list".to_string()])],
        permissions: vec![create_test_permission("compute.instances.list")],
        fetched_at: "2024-01-03T00:00:00Z".to_string(),
    };

    let result = transformer.transform(raw_data);
    assert!(result.is_ok());

    let dataset = result.unwrap();
    assert_eq!(dataset.roles.len(), 1);
    assert_eq!(dataset.permissions.len(), 1);
    assert_eq!(dataset.metadata.total_roles, 1);
    assert_eq!(dataset.metadata.total_permissions, 1);
}

#[test]
fn references_are_sorted_and_distinct() {
    let transformer = DataTransformer::new();
    let mut roles = vec![
        create_test_role("roles/viewer", vec!["a.b.c".to_string(), "a.b.c".to_string()]),
        create_test_role("roles/admin", vec!["a.b.c".to_string(), "x.y.z".to_string()]),
        create_test_role("roles/editor", vec!["a.b.c".to_string(), "unknown.perm".to_string()]),
    ];
    let mut permissions = vec![create_test_permission("a.b.c"), create_test_permission("x.y.z")];
    transformer.build_role_permission_references(&mut roles, &mut permissions);
    assert_eq!(permissions[0].roles_granting, vec!["roles/admin", "roles/editor", "roles/viewer"]);
    assert_eq!(permissions[1].roles_granting, vec!["roles/admin"]);
    assert_eq!(roles.len(), 3);
}

#[test]
fn indexes_by_position() {
    let transformer = DataTransformer::new();
    let mut beta = create_test_role("roles/b", vec![]);
    beta.stage = IamStage::Beta;
    let roles = vec![create_test_role("roles/a", vec![]), beta, create_test_role("roles/c", vec![])];
    let permissions = vec![
        create_test_permission("compute.x.y"),
        create_test_permission("storage.x.y"),
        create_test_permission("compute.z.w"),
        create_test_permission("nodots"),
    ];
    let ix = transformer.build_indexes(&roles, &permissions);
    assert_eq!(ix.roles_by_name.get("roles/b"), Some(&1));
    assert_eq!(ix.roles_by_stage.get("GA"), Some(&vec![0, 2]));
    assert_eq!(ix.roles_by_stage.get("BETA"), Some(&vec![1]));
    assert_eq!(ix.permissions_by_service.get("compute"), Some(&vec![0, 2]));
    assert_eq!(ix.permissions_by_service.get("nodots"), Some(&vec![3]));
    assert_eq!(ix.permissions_by_service.len(), 3);
    assert_eq!(ix.permissions_by_name.get("storage.x.y"), Some(&1));
    assert!(ix.permissions_by_name.get("missing").is_none());
}

#[test]
fn transform_keeps_roles_and_records_fetch_time() {
    let transformer = DataTransformer::new();
    let raw = RawGcpData {
        roles: vec![create_test_role("roles/x", vec!["p.q.r".to_string()])],
        permissions: vec![create_test_permission("p.q.r")],
        fetched_at: "2024-01-03T00:00:00Z".to_string(),
    };
    let d = transformer.transform(raw).unwrap();
    assert_eq!(d.metadata.last_updated, "2024-01-03T00:00:00Z");
    assert_eq!(d.metadata.gcp_api_version, "v1");
    assert_eq!(d.permissions[0].roles_granting, vec!["roles/x"]);
    assert!(d.metadata.changes_since_last_run.roles_added.is_empty());
    assert_eq!(d.indexes.roles_by_name.get("roles/x"), Some(&0));
}
