use sentinel_guard::error::{ErrorKind, RepositoryError};
use sentinel_guard::pagination::Pagination;
use sentinel_guard::project_scope::{ProjectScopeCreatePayload, ProjectScopeRepository};
use sentinel_guard::repository::Repository;
use sentinel_guard::routes::{delete, get, list, patch, post, post_with_id};
use sentinel_guard::service_account::{
    ServiceAccount, ServiceAccountCreatePayload, ServiceAccountFilter, ServiceAccountRepository,
    ServiceAccountSortOrder, ServiceAccountSortableFields, ServiceAccountUpdatePayload,
};
use sentinel_guard::sort::SortOrder;

const NOW: u64 = 1_700_000_000;

fn payload(name: &str, email: &str, description: &str, enabled: bool) -> ServiceAccountCreatePayload {
    ServiceAccountCreatePayload {
        name: name.to_string(),
        email: email.to_string(),
        description: description.to_string(),
        enabled,
    }
}

fn seeded() -> ServiceAccountRepository {
    let mut repository = ServiceAccountRepository::new();
    repository.create(payload("builder", "builder@example.com", "Builds the nightly images", true), 30, NOW).unwrap();
    repository.create(payload("auditor", "auditor@example.com", "Reads audit logs", false), 10, NOW + 1).unwrap();
    repository.create(payload("deployer", "deployer@example.com", "Deploys nightly builds", true), 20, NOW + 2).unwrap();
    repository
}

fn names(rows: &[ServiceAccount]) -> Vec<String> {
    rows.iter().map(|a| a.name.clone()).collect()
}

#[test]
fn create_then_read_returns_the_created_account() {
    let mut repository = ServiceAccountRepository::new();
    let created = repository.create(payload("ci", "ci@example.com", "CI runner", true), 7, NOW).unwrap();
    assert_eq!(created.id, 7);
    assert_eq!(created.created_at, NOW);
    assert_eq!(created.updated_at, NOW);
    let read = repository.read(7).unwrap();
    assert_eq!(read, created);
}

#[test]
fn create_with_taken_name_conflicts_and_adds_nothing() {
    let mut repository = seeded();
    let r = repository.create(payload("builder", "other@example.com", "", true), 99, NOW);
    let e = r.unwrap_err();
    assert_eq!(e, RepositoryError::ServiceAccountNameExists);
    assert_eq!(e.kind(), ErrorKind::Conflict);
    assert_eq!(e.to_string(), "Service account name already exists");
    assert!(repository.read(99).is_err());
    assert_eq!(repository.find(ServiceAccountFilter::default(), None, None).unwrap().len(), 3);
}

#[test]
fn create_with_taken_email_conflicts() {
    let mut repository = seeded();
    let e = repository.create(payload("fresh", "auditor@example.com", "", true), 99, NOW).unwrap_err();
    assert_eq!(e.message(), "Service account email already exists");
    assert_eq!(e.kind().status(), 409);
}

#[test]
fn create_with_taken_identifier_is_an_internal_failure() {
    let mut repository = seeded();
    let e = repository.create(payload("fresh", "fresh@example.com", "", true), 10, NOW).unwrap_err();
    assert_eq!(e, RepositoryError::Internal);
    assert_eq!(e.kind(), ErrorKind::InternalFailure);
    assert_eq!(e.kind().status(), 500);
}

#[test]
fn update_with_no_field_is_a_validation_failure() {
    let mut repository = seeded();
    let e = repository.update(10, ServiceAccountUpdatePayload::default(), NOW + 9).unwrap_err();
    assert_eq!(e.to_string(), "No changes to update");
    assert_eq!(e.kind().status(), 400);
    assert_eq!(repository.read(10).unwrap().updated_at, NOW + 1);
}

#[test]
fn update_of_unknown_account_is_not_found() {
    let mut repository = seeded();
    let update = ServiceAccountUpdatePayload { enabled: Some(true), ..Default::default() };
    let e = repository.update(555, update, NOW).unwrap_err();
    assert_eq!(e.to_string(), "Service account not found");
    assert_eq!(e.kind().status(), 404);
}

#[test]
fn update_of_one_field_keeps_the_others() {
    let mut repository = seeded();
    let before = repository.read(20).unwrap();
    let update = ServiceAccountUpdatePayload { description: Some("Ships releases".to_string()), ..Default::default() };
    let after = repository.update(20, update, NOW + 50).unwrap();
    assert_eq!(after.description, "Ships releases");
    assert_eq!(after.name, before.name);
    assert_eq!(after.email, before.email);
    assert_eq!(after.enabled, before.enabled);
    assert_eq!(after.created_at, before.created_at);
    assert_eq!(after.updated_at, NOW + 50);
    assert_eq!(repository.read(20).unwrap(), after);
}

#[test]
fn rename_to_another_accounts_name_conflicts_but_own_name_does_not() {
    let mut repository = seeded();
    let taken = ServiceAccountUpdatePayload { name: Some("auditor".to_string()), ..Default::default() };
    assert_eq!(repository.update(30, taken, NOW).unwrap_err(), RepositoryError::ServiceAccountNameExists);
    let own = ServiceAccountUpdatePayload { name: Some("builder".to_string()), ..Default::default() };
    assert_eq!(repository.update(30, own, NOW).unwrap().name, "builder");
    let email = ServiceAccountUpdatePayload { email: Some("deployer@example.com".to_string()), ..Default::default() };
    assert_eq!(repository.update(30, email, NOW).unwrap_err(), RepositoryError::ServiceAccountEmailExists);
}

#[test]
fn delete_existing_then_read_is_not_found() {
    let mut repository = seeded();
    assert_eq!(repository.delete(10), Ok(true));
    assert_eq!(repository.read(10).unwrap_err(), RepositoryError::ServiceAccountNotFound);
    assert_eq!(repository.delete(10), Ok(false));
}

#[test]
fn find_without_options_keeps_insertion_order() {
    let repository = seeded();
    let rows = repository.find(ServiceAccountFilter::default(), None, None).unwrap();
    assert_eq!(names(&rows), vec!["builder", "auditor", "deployer"]);
}

#[test]
fn find_with_empty_sort_keeps_insertion_order() {
    let repository = seeded();
    let rows = repository.find(ServiceAccountFilter::default(), Some(vec![]), None).unwrap();
    assert_eq!(names(&rows), vec!["builder", "auditor", "deployer"]);
}

#[test]
fn find_sorted_by_id_and_by_name_descending() {
    let repository = seeded();
    let by_id = vec![ServiceAccountSortOrder::new(ServiceAccountSortableFields::Id, SortOrder::Asc)];
    let rows = repository.find(ServiceAccountFilter::default(), Some(by_id), None).unwrap();
    assert_eq!(names(&rows), vec!["auditor", "deployer", "builder"]);
    let by_name = vec![ServiceAccountSortOrder::new(ServiceAccountSortableFields::Name, SortOrder::Desc)];
    let rows = repository.find(ServiceAccountFilter::default(), Some(by_name), None).unwrap();
    assert_eq!(names(&rows), vec!["deployer", "builder", "auditor"]);
}

#[test]
fn find_sorted_by_two_keys_breaks_ties_with_the_second() {
    let mut repository = ServiceAccountRepository::new();
    repository.create(payload("b", "b@x", "", true), 1, 5).unwrap();
    repository.create(payload("a", "a@x", "", true), 2, 5).unwrap();
    repository.create(payload("c", "c@x", "", true), 3, 1).unwrap();
    let keys = vec![
        ServiceAccountSortOrder::new(ServiceAccountSortableFields::CreatedAt, SortOrder::Asc),
        ServiceAccountSortOrder::new(ServiceAccountSortableFields::Email, SortOrder::Asc),
    ];
    let rows = repository.find(ServiceAccountFilter::default(), Some(keys), None).unwrap();
    assert_eq!(names(&rows), vec!["c", "a", "b"]);
}

#[test]
fn find_with_limit_and_offset() {
    let repository = seeded();
    let two = Some(Pagination { offset: None, limit: Some(2) });
    assert_eq!(names(&repository.find(ServiceAccountFilter::default(), None, two).unwrap()), vec!["builder", "auditor"]);
    let skip = Some(Pagination { offset: Some(1), limit: None });
    assert_eq!(names(&repository.find(ServiceAccountFilter::default(), None, skip).unwrap()), vec!["auditor", "deployer"]);
    let past = Some(Pagination { offset: Some(7), limit: Some(3) });
    assert!(repository.find(ServiceAccountFilter::default(), None, past).unwrap().is_empty());
}

#[test]
fn find_without_limit_stops_at_ten_rows() {
    let mut repository = ServiceAccountRepository::new();
    for i in 0..12u128 {
        let n = format!("account{}", i);
        repository.create(payload(&n, &format!("{}@example.com", n), "", true), i, NOW).unwrap();
    }
    assert_eq!(repository.find(ServiceAccountFilter::default(), None, None).unwrap().len(), 10);
    let all = Some(Pagination { offset: None, limit: Some(100) });
    assert_eq!(repository.find(ServiceAccountFilter::default(), None, all).unwrap().len(), 12);
}

#[test]
fn find_by_description_substring_is_exact_and_case_sensitive() {
    let repository = seeded();
    let f = ServiceAccountFilter { description: Some("nightly".to_string()), ..Default::default() };
    assert_eq!(names(&repository.find(f, None, None).unwrap()), vec!["builder", "deployer"]);
    let f = ServiceAccountFilter { description: Some("Nightly".to_string()), ..Default::default() };
    assert!(repository.find(f, None, None).unwrap().is_empty());
    let f = ServiceAccountFilter { description: Some(String::new()), ..Default::default() };
    assert_eq!(repository.find(f, None, None).unwrap().len(), 3);
}

#[test]
fn find_by_name_and_enabled_combines_with_and() {
    let repository = seeded();
    let f = ServiceAccountFilter { name: Some("er".to_string()), enabled: Some(true), description: None };
    assert_eq!(names(&repository.find(f, None, None).unwrap()), vec!["builder", "deployer"]);
    let f = ServiceAccountFilter { name: Some("or".to_string()), enabled: Some(true), description: None };
    assert!(repository.find(f, None, None).unwrap().is_empty());
}

#[test]
fn routes_answer_with_the_mapped_status() {
    let mut repository = seeded();
    let created = post_with_id(&mut repository, payload("ops", "ops@example.com", "", true), 40, NOW).unwrap();
    assert_eq!(created.status, 201);
    assert_eq!(created.body.id, 40);
    let conflict = post_with_id(&mut repository, payload("ops", "x@example.com", "", true), 41, NOW).unwrap_err();
    assert_eq!(conflict.status, 409);
    assert_eq!(get(&repository, 40).unwrap().status, 200);
    assert_eq!(get(&repository, 41).unwrap_err().status, 404);
    let bad = patch(&mut repository, 40, ServiceAccountUpdatePayload::default(), NOW).unwrap_err();
    assert_eq!(bad.status, 400);
    let ok = patch(&mut repository, 40, ServiceAccountUpdatePayload { enabled: Some(false), ..Default::default() }, NOW).unwrap();
    assert_eq!(ok.status, 200);
    assert!(!ok.body.enabled);
    assert_eq!(delete(&mut repository, 40).unwrap().status, 204);
    let gone = delete(&mut repository, 40).unwrap_err();
    assert_eq!(gone.status, 404);
    assert_eq!(gone.error.to_string(), "Service account not found");
}

#[test]
fn list_orders_by_identifier() {
    let repository = seeded();
    let reply = list(&repository, ServiceAccountFilter::default(), Pagination { offset: None, limit: None }).unwrap();
    assert_eq!(reply.status, 200);
    assert_eq!(names(&reply.body), vec!["auditor", "deployer", "builder"]);
}

#[test]
fn post_assigns_fresh_identifiers() {
    let mut repository = ServiceAccountRepository::new();
    let a = post(&mut repository, payload("one", "one@example.com", "", true), NOW).unwrap();
    let b = post(&mut repository, payload("two", "two@example.com", "", true), NOW).unwrap();
    assert_eq!(a.status, 201);
    assert_ne!(a.body.id, b.body.id);
    assert_eq!(repository.read(a.body.id).unwrap(), a.body);
}

fn create_and_read_back<R: Repository>(repository: &mut R, payload: R::Create, id: u128) -> (R::Entity, R::Entity) {
    let created = repository.create(payload, id, NOW).unwrap();
    let read = repository.read(id).unwrap();
    (created, read)
}

#[test]
fn both_repositories_share_the_generic_contract() {
    let mut accounts = ServiceAccountRepository::new();
    let (a, b) = create_and_read_back(&mut accounts, payload("g", "g@example.com", "generic", true), 77);
    assert_eq!(a, b);
    assert_eq!(Repository::delete(&mut accounts, 77), Ok(true));
    assert_eq!(Repository::delete(&mut accounts, 77), Ok(false));

    let mut scopes = ProjectScopeRepository::new();
    scopes.add_project(5);
    let p = ProjectScopeCreatePayload {
        project_id: "00000000-0000-0000-0000-000000000005".to_string(),
        scope: "r:w".to_string(),
        description: String::new(),
        enabled: false,
    };
    let (c, d) = create_and_read_back(&mut scopes, p, 9);
    assert_eq!(c, d);
    assert_eq!(c.project_id, 5);
    assert_eq!(Repository::delete(&mut scopes, 9), Ok(true));
    assert_eq!(Repository::delete(&mut scopes, 9).unwrap_err(), RepositoryError::ProjectScopeNotFound);
}

#[test]
fn generic_update_and_find_match_the_entity_methods() {
    let mut repository = seeded();
    let by_name = vec![ServiceAccountSortOrder::new(ServiceAccountSortableFields::Name, SortOrder::Asc)];
    let generic = Repository::find(&repository, ServiceAccountFilter::default(), Some(by_name.clone()), None).unwrap();
    let direct = repository.find(ServiceAccountFilter::default(), Some(by_name), None).unwrap();
    assert_eq!(generic, direct);
    assert_eq!(names(&generic), vec!["auditor", "builder", "deployer"]);
    let e = Repository::update(&mut repository, 10, ServiceAccountUpdatePayload::default(), NOW).unwrap_err();
    assert_eq!(e, RepositoryError::NoChanges);
    let changed = ServiceAccountUpdatePayload { enabled: Some(true), ..Default::default() };
    let updated = Repository::update(&mut repository, 10, changed, NOW + 4).unwrap();
    assert!(updated.enabled);
    assert_eq!(updated.name, "auditor");
    assert_eq!(Repository::read(&repository, 10).unwrap(), updated);
}
