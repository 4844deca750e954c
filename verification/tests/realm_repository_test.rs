#![allow(unused_variables, unused_mut)]

use plexrbac::common::SecurityContext;
use plexrbac::domain::models::SecurityRealm;
use plexrbac::persistence::realm_repository::SecurityRealmRepository;

#[test]
fn realm_repository_test_create() {
    let ctx = SecurityContext::new("myorg", "myid");
    let mut repo = SecurityRealmRepository::new();
    repo.clear();

    let realm = SecurityRealm::new("myrealm", Some("blah".to_string()));
    let realm_str = format!("{:?}", realm);
    repo.create(&ctx, &realm).unwrap();

    let loaded = repo.get(&ctx, realm.id.as_str()).unwrap();
    assert_eq!(realm_str, format!("{:?}", loaded));
}

#[test]
fn realm_repository_test_update() {
    let ctx = SecurityContext::new("myorg", "myid");
    let mut repo = SecurityRealmRepository::new();
    repo.clear();

    let realm = SecurityRealm::new("myrealm", Some("desc".to_string()));
    repo.create(&ctx, &realm).unwrap();

    let mut loaded = repo.get(&ctx, realm.id.as_str()).unwrap();
    loaded.description = Some("blah".to_string());
    assert!(repo.update(&ctx, &loaded).is_ok());
    let loaded = repo.get(&ctx, loaded.id.as_str()).unwrap();
    assert_eq!(Some("blah".to_string()), loaded.description);
}

#[test]
fn realm_repository_test_delete() {
    let ctx = SecurityContext::new("myorg", "myid");
    let mut repo = SecurityRealmRepository::new();
    repo.clear();

    let mut realm = SecurityRealm::new("myrealm", None);
    repo.create(&ctx, &mut realm).unwrap();
    repo.delete(&ctx, realm.id.as_str()).unwrap();

    assert_eq!(None, repo.get(&ctx, realm.id.as_str()));
}

#[test]
fn realm_repository_test_get_all() {
    let ctx = SecurityContext::new("myorg", "myid");
    let mut repo = SecurityRealmRepository::new();
    repo.clear();

    repo.create(&ctx, &mut SecurityRealm::new("myrealm1", None)).unwrap();
    repo.create(&ctx, &mut SecurityRealm::new("myrealm2", None)).unwrap();

    let results = repo.all(&ctx);
    assert_eq!(2, results.len());
}
