#![allow(unused_variables, unused_mut)]

use plexrbac::common::SecurityContext;
use plexrbac::domain::models::Claim;
use plexrbac::persistence::claim_repository::ClaimRepository;

#[test]
fn claim_repository_test_save() {
    let ctx = SecurityContext::new("myorg", "myid");
    let mut repo = ClaimRepository::new();
    repo.clear();

    let claim = repo.create(&ctx, &Claim::new("", "99", "11", "READ", "Allow", None)).unwrap();
    let claim_str = format!("{:?}", claim);

    let loaded = repo.get(&ctx, "99", "11", claim.id.as_str()).unwrap();
    assert_eq!(claim_str, format!("{:?}", loaded));
}

#[test]
fn claim_repository_test_update() {
    let ctx = SecurityContext::new("myorg", "myid");
    let mut repo = ClaimRepository::new();
    repo.clear();

    let claim = repo.create(&ctx, &Claim::new("", "99", "11", "READ", "Allow", None)).unwrap();

    let mut loaded = repo.get(&ctx, "99", "11", claim.id.as_str()).unwrap();
    loaded.description = Some("blah".to_string());
    repo.update(&ctx, &loaded).unwrap();
    let loaded = repo.get(&ctx, "99", "11", loaded.id.as_str()).unwrap();
    assert_eq!(Some("blah".to_string()), loaded.description);
}

#[test]
fn claim_repository_test_delete() {
    let ctx = SecurityContext::new("myorg", "myid");
    let mut repo = ClaimRepository::new();
    repo.clear();

    let claim = repo.create(&ctx, &Claim::new("", "99", "11", "READ", "Allow", None)).unwrap();
    repo.delete(&ctx, "99", "11", claim.id.as_str()).unwrap();
    let loaded = repo.get(&ctx, "99", "11", claim.id.as_str());
    assert!(loaded.is_none());
}

#[test]
fn test_get_by_claim_ids() {
    let ctx = SecurityContext::new("myorg", "myid");
    let mut repo = ClaimRepository::new();
    repo.clear();

    let claim = repo.create(&ctx, &Claim::new("", "99", "11", "READ", "Allow", None)).unwrap();
    assert_eq!(1, repo._get_by_claim_ids(vec![claim.id.clone()]).len());
}

#[test]
fn claim_repository_test_get_by_realm() {
    let ctx = SecurityContext::new("myorg", "myid");
    let mut repo = ClaimRepository::new();
    repo.clear();

    let _ = repo.create(&ctx, &Claim::new("", "99", "11", "READ", "Allow", None)).unwrap();
    let _ = repo.create(&ctx, &Claim::new("", "99", "12", "READ", "Allow", None)).unwrap();
    let results = repo.get_by_realm(&ctx, "99");
    assert_eq!(2, results.len());
}

#[test]
fn test_get_by_realm_resource() {
    let ctx = SecurityContext::new("myorg", "myid");
    let mut repo = ClaimRepository::new();
    repo.clear();

    let _ = repo.create(&ctx, &Claim::new("", "99", "11", "READ", "Allow", None)).unwrap();
    let _ = repo.create(&ctx, &Claim::new("", "99", "11", "WRITE", "Allow", None)).unwrap();
    let results = repo.get_by_realm_resource(&ctx, "99", "11");
    assert_eq!(2, results.len());
}
