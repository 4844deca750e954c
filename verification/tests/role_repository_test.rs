#![allow(unused_variables, unused_mut)]

use plexrbac::common::SecurityContext;
use plexrbac::domain::models::Role;
use plexrbac::persistence::role_repository::RoleRepository;

#[test]
fn role_repository_test_create() {
    let ctx = SecurityContext::new("myorg", "myid");
    let mut repo = RoleRepository::new();
    repo.clear();

    let role = repo.create(&ctx, &Role::new("", "default", "2", "myrole", Some("desc".to_string()), Some("parent".to_string()))).unwrap();
    let role_str = format!("{:?}", role);

    let loaded = repo.get(&ctx, role.organization_id.as_str(), role.id.as_str()).unwrap();
    assert_eq!(role_str, format!("{:?}", loaded));
}

#[test]
fn role_repository_test_update() {
    let ctx = SecurityContext::new("myorg", "myid");
    let mut repo = RoleRepository::new();
    repo.clear();

    let role = repo.create(&ctx, &Role::new("", "default", "2", "myrole", Some("desc".to_string()), Some("parent".to_string()))).unwrap();

    let mut loaded = repo.get(&ctx, role.organization_id.as_str(), role.id.as_str()).unwrap();
    loaded.description = Some("newdesc".to_string());

    assert!(repo.update(&ctx, &loaded).is_ok());
    let loaded = repo.get(&ctx, role.organization_id.as_str(), loaded.id.as_str()).unwrap();
    assert_eq!(Some("newdesc".to_string()), loaded.description);
}

#[test]
fn role_repository_test_delete() {
    let ctx = SecurityContext::new("myorg", "myid");
    let mut repo = RoleRepository::new();
    repo.clear();

    let role = repo.create(&ctx, &Role::new("", "default", "2", "myrole", Some("desc".to_string()), Some("parent".to_string()))).unwrap();
    repo.delete(&ctx, "2", role.id.as_str()).unwrap();
    let loaded = repo.get(&ctx, role.organization_id.as_str(), role.id.as_str());
    assert!(loaded.is_none());
}

#[test]
fn test_get_by_role_ids() {
    let ctx = SecurityContext::new("myorg", "myid");
    let mut repo = RoleRepository::new();
    repo.clear();

    let role1 = repo.create(&ctx, &Role::new("", "default", "2", "myrole1", Some("desc".to_string()), Some("parent".to_string()))).unwrap();
    let role2 = repo.create(&ctx, &Role::new("", "default", "2", "myrole2", Some("desc".to_string()), Some("parent".to_string()))).unwrap();
    assert_eq!(2, repo._get_roles_by_role_ids(vec![role1.id.clone(), role2.id.clone()]).len());
}

#[test]
fn role_repository_test_get_by_org() {
    let ctx = SecurityContext::new("myorg", "myid");
    let mut repo = RoleRepository::new();
    repo.clear();

    let _ = repo.create(&ctx, &Role::new("", "default", "2", "myrole1", Some("desc".to_string()), Some("parent".to_string()))).unwrap();
    let _ = repo.create(&ctx, &Role::new("", "default", "2", "myrole2", Some("desc".to_string()), Some("parent".to_string()))).unwrap();
    let results = repo.get_by_org(&ctx, "2");
    assert_eq!(2, results.len());
}
