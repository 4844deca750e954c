#![allow(unused_variables, unused_mut)]

use plexrbac::common::SecurityContext;
use plexrbac::domain::models::Resource;
use plexrbac::persistence::resource_repository::ResourceRepository;

#[test]
fn resource_repository_test_create() {
    let ctx = SecurityContext::new("myorg", "myid");
    let mut repo = ResourceRepository::new();
    repo.clear();

    let resource = repo.create(&ctx, &Resource::new("", "1", "app", None, None)).unwrap();
    let resource_str = format!("{:?}", resource);
    let loaded = repo.get(&ctx, "1", resource.id.as_str()).unwrap();
    assert_eq!(resource_str, format!("{:?}", loaded));
}

#[test]
fn resource_repository_test_update() {
    let ctx = SecurityContext::new("myorg", "myid");
    let mut repo = ResourceRepository::new();
    repo.clear();

    let resource = repo.create(&ctx, &Resource::new("", "1", "app", None, None)).unwrap();
    let mut loaded = repo.get(&ctx, "1", resource.id.as_str()).unwrap();
    loaded.description = Some("blah".to_string());
    assert!(repo.update(&ctx, &loaded).is_ok());
    let loaded = repo.get(&ctx, "1", loaded.id.as_str()).unwrap();
    assert_eq!(Some("blah".to_string()), loaded.description);
}

#[test]
fn test_get_by_ids() {
    let ctx = SecurityContext::new("myorg", "myid");
    let mut repo = ResourceRepository::new();
    repo.clear();

    let resource1 = repo.create(&ctx, &Resource::new("", "1", "app1", None, None)).unwrap();
    let resource2 = repo.create(&ctx, &Resource::new("", "1", "app2", None, None)).unwrap();
    let all = repo._get_by_ids(vec![resource1.id.clone(), resource2.id.clone()]);
    assert_eq!(2, all.len());
}

#[test]
fn resource_repository_test_delete() {
    let ctx = SecurityContext::new("myorg", "myid");
    let mut repo = ResourceRepository::new();
    repo.clear();

    let resource = repo.create(&ctx, &Resource::new("", "1", "app", None, None)).unwrap();
    repo.delete(&ctx, "1", resource.id.as_str()).unwrap();
    let loaded = repo.get(&ctx, "1", resource.id.as_str());
    assert!(loaded.is_none());
}

#[test]
fn resource_repository_test_get_by_realm() {
    let ctx = SecurityContext::new("myorg", "myid");
    let mut repo = ResourceRepository::new();
    repo.clear();

    let _ = repo.create(&ctx, &Resource::new("", "1", "app1", None, None)).unwrap();
    let _ = repo.create(&ctx, &Resource::new("", "1", "app2", None, None)).unwrap();

    let results = repo.get_by_realm(&ctx, "1");
    assert_eq!(2, results.len());
}
