use sentinel_guard::pagination::Pagination;
use sentinel_guard::project_scope::{
    ProjectScopeCreatePayload, ProjectScopeFilter, ProjectScopeRepository, ProjectScopeSortOrder,
    ProjectScopeSortableFields, ProjectScopeUpdatePayload,
};
use sentinel_guard::sort::SortOrder;
use uuid::Uuid;

const PROJECT_A: &str = "123e4567-e89b-12d3-a456-426614174000";
const PROJECT_B: &str = "987e6543-e21b-12d3-a456-426614174999";
const NOW: u64 = 1_700_000_000;

fn id(s: &str) -> u128 {
    Uuid::parse_str(s).unwrap().as_u128()
}

fn seeded_projects() -> ProjectScopeRepository {
    let mut repository = ProjectScopeRepository::new();
    repository.add_project(id(PROJECT_A));
    repository.add_project(id(PROJECT_B));
    repository
}

fn seeded_scopes() -> ProjectScopeRepository {
    let mut repository = seeded_projects();
    let rows: [(u128, &str, &str, &str, bool); 14] = [
        (0x01, PROJECT_A, "testa:read", "Read access to testa project", true),
        (0x02, PROJECT_A, "testa:write", "Write access to testa project", true),
        (0x03, PROJECT_A, "testa:delete", "Delete access to testa project", true),
        (0x04, PROJECT_A, "testb:read", "Read access to testb resources", true),
        (0x05, PROJECT_A, "testc:read", "Read access to testc resources", true),
        (0x06, PROJECT_A, "testd:read", "Read access to testd resources", false),
        (0x11, PROJECT_B, "testb:write", "Write access to project b", true),
        (0x12, PROJECT_B, "testb:admin", "Admin access to project b", true),
        (0x13, PROJECT_B, "other:read", "Read access to other data", true),
        (0x14, PROJECT_B, "other:write", "Write access to other data", true),
        (0x15, PROJECT_B, "other:delete", "Delete access to other data", true),
        (0x21, PROJECT_B, "audit:read", "Read access to audit logs", false),
        (0x22, PROJECT_B, "audit:write", "Write access to audit logs", false),
        (0x23, PROJECT_B, "reports:export", "Export reports", false),
    ];
    for (row_id, project, scope, description, enabled) in rows {
        let payload = ProjectScopeCreatePayload {
            project_id: project.to_string(),
            scope: scope.to_string(),
            description: description.to_string(),
            enabled,
        };
        repository.create(payload, row_id, NOW).unwrap();
    }
    repository
}

#[test]
fn test_project_scope_repository_create_with_valid_data_succeeds() {
    let mut repository = seeded_projects();

    let payload = ProjectScopeCreatePayload {
        project_id: "123e4567-e89b-12d3-a456-426614174000".to_string(),
        scope: "test:read".to_string(),
        description: "Test Description".to_string(),
        enabled: true,
    };

    let project_scope = repository.create(payload.clone(), 0x100, NOW).unwrap();

    assert_eq!(
        project_scope.project_id,
        Uuid::parse_str("123e4567-e89b-12d3-a456-426614174000").unwrap().as_u128()
    );
    assert_eq!(project_scope.scope, "test:read");
    assert_eq!(project_scope.description, "Test Description");
    assert!(project_scope.enabled);
}

#[test]
fn test_project_scope_repository_create_with_missing_project_id_fails() {
    let mut repository = ProjectScopeRepository::new();

    let payload = ProjectScopeCreatePayload {
        project_id: "123e4567-e89b-12d3-a456-426614174000".to_string(),
        scope: "test:read".to_string(),
        description: "Test Description".to_string(),
        enabled: true,
    };

    let project_scope = repository.create(payload.clone(), 0x100, NOW);

    assert!(project_scope.is_err());
    let error_message = project_scope.unwrap_err().to_string();
    assert_eq!(error_message, "Project not found");
    assert!(repository.read(0x100).is_err());
}

#[test]
fn test_project_scope_repository_create_with_duplicate_project_id_scope_fails() {
    let mut repository = seeded_scopes();

    let payload = ProjectScopeCreatePayload {
        project_id: "123e4567-e89b-12d3-a456-426614174000".to_string(),
        scope: "testa:read".to_string(),
        description: "Test Description".to_string(),
        enabled: true,
    };

    let project_scope = repository.create(payload.clone(), 0x100, NOW);

    assert!(project_scope.is_err());
    let error_message = project_scope.unwrap_err().to_string();
    assert_eq!(error_message, "Project Id, scope combination already exists");
}

#[test]
fn test_project_scope_repository_read_existing_account_succeeds() {
    let repository = seeded_scopes();

    let project_id = Uuid::parse_str("00000000-0000-0000-0000-000000000001").unwrap();

    let project_scope = repository.read(project_id.as_u128());

    assert!(project_scope.is_ok());
    let project_scope = project_scope.unwrap();
    assert_eq!(
        project_scope.project_id,
        Uuid::parse_str("123e4567-e89b-12d3-a456-426614174000").unwrap().as_u128()
    );
    assert_eq!(project_scope.scope, "testa:read");
    assert_eq!(project_scope.description, "Read access to testa project");
    assert!(project_scope.enabled);
}

#[test]
fn test_project_scope_repository_read_nonexistent_account_returns_error() {
    let repository = ProjectScopeRepository::new();

    let project_id = Uuid::parse_str("00000000-0000-0000-0000-000000000002").unwrap();

    let project_scope = repository.read(project_id.as_u128());

    assert!(project_scope.is_err());
    let error_message = project_scope.unwrap_err().to_string();
    assert_eq!(error_message, "Project scope not found");
}

#[test]
fn test_project_scope_repository_update_scope_succeeds() {
    let mut repository = seeded_scopes();

    let project_id = Uuid::parse_str("00000000-0000-0000-0000-000000000001").unwrap();
    let update = ProjectScopeUpdatePayload {
        scope: Some("testa:changes-made".to_string()),
        description: None,
        enabled: None,
    };

    let project_scope = repository.update(project_id.as_u128(), update, NOW + 5).unwrap();

    assert_eq!(project_scope.scope, "testa:changes-made");
}

#[test]
fn test_project_scope_repository_update_description_succeeds() {
    let mut repository = seeded_scopes();

    let project_id = Uuid::parse_str("00000000-0000-0000-0000-000000000001").unwrap();
    let update = ProjectScopeUpdatePayload {
        scope: None,
        description: Some("some changes to make".to_string()),
        enabled: None,
    };

    let project_scope = repository.update(project_id.as_u128(), update, NOW + 5).unwrap();

    assert_eq!(project_scope.description, "some changes to make");
}

#[test]
fn test_project_scope_repository_update_enabled_to_false_succeeds() {
    let mut repository = seeded_scopes();

    let project_id = Uuid::parse_str("00000000-0000-0000-0000-000000000001").unwrap();
    let update = ProjectScopeUpdatePayload {
        scope: None,
        description: None,
        enabled: Some(false),
    };

    let project_scope = repository.update(project_id.as_u128(), update, NOW + 5).unwrap();

    assert!(!project_scope.enabled);
}

#[test]
fn test_project_scope_repository_update_enabled_to_true_succeeds() {
    let mut repository = seeded_scopes();

    let project_id = Uuid::parse_str("00000000-0000-0000-0000-000000000023").unwrap();
    let update = ProjectScopeUpdatePayload {
        scope: None,
        description: None,
        enabled: Some(true),
    };

    let project_scope = repository.update(project_id.as_u128(), update, NOW + 5).unwrap();

    assert!(project_scope.enabled);
}

#[test]
fn test_project_scope_repository_update_scope_duplicated_fails() {
    let mut repository = seeded_scopes();

    let project_id = Uuid::parse_str("00000000-0000-0000-0000-000000000001").unwrap();
    let update = ProjectScopeUpdatePayload {
        scope: Some("testa:write".to_string()),
        description: None,
        enabled: None,
    };

    let project_scope = repository.update(project_id.as_u128(), update, NOW + 5);

    assert!(project_scope.is_err());
    let error_message = project_scope.unwrap_err().to_string();
    assert_eq!(error_message, "Project Id, scope combination already exists");
}

#[test]
fn test_project_scope_delete_existing_scope_succeeds() {
    let mut repository = seeded_scopes();

    let project_id = Uuid::parse_str("00000000-0000-0000-0000-000000000001").unwrap();

    let project_scope = repository.delete(project_id.as_u128()).unwrap();

    assert!(project_scope);
}

#[test]
fn test_project_scope_delete_nonexisting_scope_fails() {
    let mut repository = ProjectScopeRepository::new();

    let project_id = Uuid::parse_str("00000000-0000-0000-0000-000000000001").unwrap();

    let project_scope = repository.delete(project_id.as_u128());

    assert!(project_scope.is_err());
    let error_message = project_scope.unwrap_err().to_string();
    assert_eq!(error_message, "Project scope not found");
}

#[test]
fn test_project_scope_find_with_limit_pagination() {
    let repository = seeded_scopes();

    let filter = ProjectScopeFilter::default();
    let sort = None;
    let pagination = Some(Pagination { limit: Some(2), offset: None });

    let project_scopes = repository.find(filter, sort, pagination).unwrap();

    assert_eq!(project_scopes.len(), 2);
}

#[test]
fn test_project_scope_find_with_offset_pagination() {
    let repository = seeded_scopes();

    let filter = ProjectScopeFilter::default();
    let sort = None;
    let pagination = Some(Pagination { limit: None, offset: Some(1) });

    let project_scopes = repository.find(filter, sort, pagination).unwrap();

    assert_eq!(project_scopes.len(), 10);
}

#[test]
fn test_project_scope_find_with_limit_offset_pagination() {
    let repository = seeded_scopes();

    let filter = ProjectScopeFilter::default();
    let sort = None;
    let pagination = Some(Pagination { limit: Some(2), offset: Some(1) });

    let project_scopes = repository.find(filter, sort, pagination).unwrap();

    assert_eq!(project_scopes.len(), 2);
}

#[test]
fn test_project_scope_find_with_project_id_filter() {
    let repository = seeded_scopes();

    let filter = ProjectScopeFilter {
        project_id: Some("123e4567-e89b-12d3-a456-426614174000".to_string()),
        ..Default::default()
    };
    let sort = None;
    let pagination = None;

    let project_scopes = repository.find(filter, sort, pagination).unwrap();

    assert_eq!(project_scopes.len(), 6);
}

#[test]
fn test_project_scope_find_with_scope_filter() {
    let repository = seeded_scopes();

    let filter = ProjectScopeFilter {
        scope: Some("testa:read".to_string()),
        ..Default::default()
    };
    let sort = None;
    let pagination = None;

    let project_scopes = repository.find(filter, sort, pagination).unwrap();

    assert_eq!(project_scopes.len(), 1);
}

#[test]
fn test_project_scope_find_with_description_filter() {
    let repository = seeded_scopes();

    let filter = ProjectScopeFilter {
        description: Some("Read access".to_string()),
        ..Default::default()
    };
    let sort = None;
    let pagination = None;

    let project_scopes = repository.find(filter, sort, pagination).unwrap();

    assert_eq!(project_scopes.len(), 6);
}

#[test]
fn test_project_scope_find_with_enabled_is_true_filter() {
    let repository = seeded_scopes();

    let filter = ProjectScopeFilter {
        enabled: Some(true),
        ..Default::default()
    };
    let sort = None;
    let pagination = None;

    let project_scopes = repository.find(filter, sort, pagination).unwrap();

    assert_eq!(project_scopes.len(), 10);
}

#[test]
fn test_project_scope_find_with_enabled_is_false_filter() {
    let repository = seeded_scopes();

    let filter = ProjectScopeFilter {
        enabled: Some(false),
        ..Default::default()
    };
    let sort = None;
    let pagination = None;

    let project_scopes = repository.find(filter, sort, pagination).unwrap();

    assert_eq!(project_scopes.len(), 4);
}

#[test]
fn second_identical_scope_creation_conflicts() {
    let mut repository = seeded_projects();
    let p = ProjectScopeCreatePayload {
        project_id: PROJECT_B.to_string(),
        scope: "x:y".to_string(),
        description: String::new(),
        enabled: true,
    };
    repository.create(p.clone(), 1, NOW).unwrap();
    let e = repository.create(p, 2, NOW).unwrap_err();
    assert_eq!(e.to_string(), "Project Id, scope combination already exists");
    assert!(repository.read(2).is_err());
}

#[test]
fn same_scope_on_another_project_is_allowed() {
    let mut repository = seeded_scopes();
    let p = ProjectScopeCreatePayload {
        project_id: PROJECT_B.to_string(),
        scope: "testa:read".to_string(),
        description: String::new(),
        enabled: true,
    };
    let created = repository.create(p, 0x200, NOW).unwrap();
    assert_eq!(created.project_id, id(PROJECT_B));
}

#[test]
fn malformed_project_identifier_is_project_not_found() {
    let mut repository = seeded_projects();
    let p = ProjectScopeCreatePayload {
        project_id: "not-a-uuid".to_string(),
        scope: "x:y".to_string(),
        description: String::new(),
        enabled: true,
    };
    assert_eq!(repository.create(p, 1, NOW).unwrap_err().to_string(), "Project not found");
}

#[test]
fn scope_update_keeps_other_fields_and_own_scope_is_no_conflict() {
    let mut repository = seeded_scopes();
    let before = repository.read(0x02).unwrap();
    let own = ProjectScopeUpdatePayload { scope: Some("testa:write".to_string()), ..Default::default() };
    let after = repository.update(0x02, own, NOW + 3).unwrap();
    assert_eq!(after.scope, before.scope);
    assert_eq!(after.description, before.description);
    assert_eq!(after.project_id, before.project_id);
    assert_eq!(after.updated_at, NOW + 3);
    let none = repository.update(0x02, ProjectScopeUpdatePayload::default(), NOW).unwrap_err();
    assert_eq!(none.to_string(), "No changes to update");
}

#[test]
fn scope_delete_then_read_is_not_found() {
    let mut repository = seeded_scopes();
    assert_eq!(repository.delete(0x05), Ok(true));
    assert_eq!(repository.read(0x05).unwrap_err().to_string(), "Project scope not found");
}

#[test]
fn scope_find_offset_skips_first_row_and_sorts_by_scope() {
    let repository = seeded_scopes();
    let all = repository.find(ProjectScopeFilter::default(), None, None).unwrap();
    let skipped = repository.find(ProjectScopeFilter::default(), None, Some(Pagination { offset: Some(1), limit: None })).unwrap();
    assert_eq!(all[1], skipped[0]);
    let keys = vec![ProjectScopeSortOrder::new(ProjectScopeSortableFields::Scope, SortOrder::Asc)];
    let f = ProjectScopeFilter { project_id: Some(PROJECT_A.to_string()), ..Default::default() };
    let sorted = repository.find(f, Some(keys), None).unwrap();
    let scopes: Vec<&str> = sorted.iter().map(|s| s.scope.as_str()).collect();
    assert_eq!(scopes, vec!["testa:delete", "testa:read", "testa:write", "testb:read", "testc:read", "testd:read"]);
}
