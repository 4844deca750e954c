#![allow(unused_variables, unused_mut)]

use plexrbac::common::SecurityContext;
use plexrbac::domain::models::ResourceInstance;
use plexrbac::persistence::resource_instance_repository::ResourceInstanceRepository;

#[test]
fn resource_instance_repository_test_create() {
    let ctx = SecurityContext::new("myorg", "myid");
    let mut repo = ResourceInstanceRepository::new();
    repo.clear();

    let instance = repo._create(&ctx, &ResourceInstance::new("", "11", "22", "", "refid", "INFLIGHT", Some("blah".to_string()))).unwrap();
    let instance_str = format!("{:?}", instance);

    let loaded = repo.get(&ctx, instance.id.as_str()).unwrap();
    assert_eq!(instance_str, format!("{:?}", loaded));
}

#[test]
fn resource_instance_repository_test_update() {
    let ctx = SecurityContext::new("myorg", "myid");
    let mut repo = ResourceInstanceRepository::new();
    repo.clear();

    let instance = repo._create(&ctx, &ResourceInstance::new("", "11", "22", "", "refid", "INFLIGHT", Some("blah".to_string()))).unwrap();

    let mut loaded = repo.get(&ctx, instance.id.as_str()).unwrap();
    loaded.description = Some("blah".to_string());
    assert!(repo.update(&ctx, &loaded).is_ok());
    let loaded = repo.get(&ctx, loaded.id.as_str()).unwrap();
    assert_eq!(Some("blah".to_string()), loaded.description);
}

#[test]
fn resource_instance_repository_test_delete() {
    let ctx = SecurityContext::new("myorg", "myid");
    let mut repo = ResourceInstanceRepository::new();
    repo.clear();

    let instance = repo._create(&ctx, &ResourceInstance::new("", "11", "22", "", "refid", "INFLIGHT", Some("blah".to_string()))).unwrap();
    repo.delete(&ctx, instance.id.as_str()).unwrap();
    let loaded = repo.get(&ctx, instance.id.as_str());
    assert!(loaded.is_none());
}

#[test]
fn resource_instance_repository_test_get_by_resource() {
    let ctx = SecurityContext::new("myorg", "myid");
    let mut repo = ResourceInstanceRepository::new();
    repo.clear();

    let _ = repo._create(&ctx, &ResourceInstance::new("", "11", "22", "", "refid1", "INFLIGHT", Some("blah".to_string()))).unwrap();
    let _ = repo._create(&ctx, &ResourceInstance::new("", "11", "22", "", "refid2", "INFLIGHT", Some("blah".to_string()))).unwrap();

    let results = repo._get_by_resource_scope("11", "");
    assert_eq!(2, results.len());
    let results = repo.get_by_resource(&ctx, "11");
    assert_eq!(2, results.len());
}
