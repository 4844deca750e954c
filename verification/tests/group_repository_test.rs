#![allow(unused_variables, unused_mut)]

use plexrbac::common::SecurityContext;
use plexrbac::domain::models::Group;
use plexrbac::persistence::group_repository::GroupRepository;

#[test]
fn group_repository_test_create() {
    let ctx = SecurityContext::new("myorg", "myid");
    let mut repo = GroupRepository::new();
    repo.clear();

    let group = repo.create(&ctx, &Group::new("", "2", "mygroup", Some("desc".to_string()), Some("parent".to_string()))).unwrap();
    let group_str = format!("{:?}", group);

    let loaded = repo.get(&ctx, "2", group.id.as_str()).unwrap();
    assert_eq!(group_str, format!("{:?}", loaded));
}

#[test]
fn group_repository_test_update() {
    let ctx = SecurityContext::new("myorg", "myid");
    let mut repo = GroupRepository::new();
    repo.clear();

    let group = repo.create(&ctx, &Group::new("", "2", "mygroup", Some("desc".to_string()), Some("parent".to_string()))).unwrap();

    let mut loaded = repo.get(&ctx, "2", group.id.as_str()).unwrap();
    loaded.description = Some(String::from("my desc"));
    assert!(repo.update(&ctx, &loaded).is_ok());
    let loaded = repo.get(&ctx, "2", loaded.id.as_str()).unwrap();
    assert_eq!(Some("my desc".to_string()), loaded.description);
}

#[test]
fn group_repository_test_delete() {
    let ctx = SecurityContext::new("myorg", "myid");
    let mut repo = GroupRepository::new();
    repo.clear();

    let group = repo.create(&ctx, &Group::new("", "2", "mygroup", Some("desc".to_string()), Some("parent".to_string()))).unwrap();
    repo.delete(&ctx, "2", group.id.as_str()).unwrap();
    let loaded = repo.get(&ctx, "2", group.id.as_str());
    assert!(loaded.is_none());
}

#[test]
fn test_get_by_group_ids() {
    let ctx = SecurityContext::new("myorg", "myid");
    let mut repo = GroupRepository::new();
    repo.clear();

    let group1 = repo.create(&ctx, &Group::new("", "2", "mygroup1", Some("desc".to_string()), Some("parent".to_string()))).unwrap();
    let group2 = repo.create(&ctx, &Group::new("", "2", "mygroup2", Some("desc".to_string()), Some("parent".to_string()))).unwrap();

    assert_eq!(2, repo.get_by_group_ids(&ctx, vec![group1.id.clone(), group2.id.clone()]).len());
}

#[test]
fn group_repository_test_get_by_org() {
    let ctx = SecurityContext::new("myorg", "myid");
    let mut repo = GroupRepository::new();
    repo.clear();

    let _ = repo.create(&ctx, &Group::new("", "2", "mygroup1", Some("desc".to_string()), Some("parent".to_string()))).unwrap();
    let _ = repo.create(&ctx, &Group::new("", "2", "mygroup2", Some("desc".to_string()), Some("parent".to_string()))).unwrap();

    let results = repo.get_by_org(&ctx, "2");
    assert_eq!(2, results.len());
}
