#![allow(unused_variables, unused_mut)]

use plexrbac::common::SecurityContext;
use plexrbac::domain::models::Organization;
use plexrbac::persistence::org_repository::OrganizationRepository;

#[test]
fn org_repository_test_create() {
    let ctx = SecurityContext::new("myorg", "myid");
    let mut repo = OrganizationRepository::new();
    repo.clear();

    let org = repo.create(&ctx, &Organization::new("", None, "myorg", "url", None)).unwrap();
    let org_str = format!("{:?}", org);
    let loaded = repo.get(&ctx, org.id.as_str()).unwrap();
    assert_eq!(org_str, format!("{:?}", loaded));
}

#[test]
fn org_repository_test_update() {
    let ctx = SecurityContext::new("myorg", "myid");
    let mut repo = OrganizationRepository::new();
    repo.clear();

    let org = repo.create(&ctx, &Organization::new("", None, "myorg", "url", None)).unwrap();
    let mut loaded = repo.get(&ctx, org.id.as_str()).unwrap();
    loaded.description = Some("blah".to_string());
    assert!(repo.update(&ctx, &loaded).is_ok());
    let loaded = repo.get(&ctx, loaded.id.as_str()).unwrap();
    assert_eq!(Some("blah".to_string()), loaded.description);
}

#[test]
fn org_repository_test_delete() {
    let ctx = SecurityContext::new("myorg", "myid");
    let mut repo = OrganizationRepository::new();
    repo.clear();

    let org = repo.create(&ctx, &Organization::new("", None, "myorg", "url", None)).unwrap();
    repo.delete(&ctx, org.id.as_str()).unwrap();
    let loaded = repo.get(&ctx, org.id.as_str());
    assert!(loaded.is_none());
}

#[test]
fn org_repository_test_get_all() {
    let ctx = SecurityContext::new("myorg", "myid");
    let mut repo = OrganizationRepository::new();
    repo.clear();

    let _ = repo.create(&ctx, &Organization::new("", None, "myorg1", "url", None)).unwrap();
    let _ = repo.create(&ctx, &Organization::new("", None, "myorg2", "url", None)).unwrap();

    let results = repo.all(&ctx);
    assert_eq!(2, results.len());
}
