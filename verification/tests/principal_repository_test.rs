#![allow(unused_variables, unused_mut)]

use plexrbac::common::SecurityContext;
use plexrbac::domain::models::Principal;
use plexrbac::persistence::principal_repository::PrincipalRepository;

#[test]
fn principal_repository_test_create() {
    let ctx = SecurityContext::new("myorg", "myid");
    let mut repo = PrincipalRepository::new();
    repo.clear();

    let principal = repo.create(&ctx, &Principal::new("", "2", "myusername-principal", Some("desc".to_string()))).unwrap();
    let principal_str = format!("{:?}", principal);

    let loaded = repo.get(&ctx, principal.id.as_str()).unwrap();
    assert_eq!(principal_str, format!("{:?}", loaded));
}

#[test]
fn principal_repository_test_update() {
    let ctx = SecurityContext::new("myorg", "myid");
    let mut repo = PrincipalRepository::new();
    repo.clear();

    let principal = repo.create(&ctx, &Principal::new("", "2", "myusername-principal", Some("desc".to_string()))).unwrap();

    let mut loaded = repo.get(&ctx, principal.id.as_str()).unwrap();
    loaded.description = Some("blah".to_string());
    assert!(repo.update(&ctx, &loaded).is_ok());
    let loaded = repo.get(&ctx, loaded.id.as_str()).unwrap();
    assert_eq!(Some("blah".to_string()), loaded.description);
}

#[test]
fn principal_repository_test_delete() {
    let ctx = SecurityContext::new("myorg", "myid");
    let mut repo = PrincipalRepository::new();
    repo.clear();

    let principal = repo.create(&ctx, &Principal::new("", "2", "myusername-principal", Some("desc".to_string()))).unwrap();
    repo.delete(&ctx, principal.id.as_str()).unwrap();
    let loaded = repo.get(&ctx, principal.id.as_str());
    assert!(loaded.is_none());
}

#[test]
fn principal_repository_test_get_by_org() {
    let ctx = SecurityContext::new("myorg", "myid");
    let mut repo = PrincipalRepository::new();
    repo.clear();

    let _ = repo.create(&ctx, &Principal::new("", "2", "myusername-principal1", Some("desc".to_string()))).unwrap();
    let _ = repo.create(&ctx, &Principal::new("", "2", "myusername-principal2", Some("desc".to_string()))).unwrap();
    let results = repo.get_by_org(&ctx, "2");
    assert_eq!(2, results.len());
}
