#![allow(unused_variables, unused_mut)]

use plexrbac::persistence::group_principal_repository::GroupPrincipalRepository;
use plexrbac::persistence::models::PGroupPrincipal;

#[test]
fn group_principal_repository_test_create() {
    let mut repo = GroupPrincipalRepository::new();
    repo.clear();
    //
    let association = PGroupPrincipal::new("1", "2");
    repo.create(&association).unwrap();
    assert_eq!(true, repo.has_association(&association));
}

#[test]
fn group_principal_repository_test_delete() {
    let mut repo = GroupPrincipalRepository::new();
    repo.clear();

    let association = PGroupPrincipal::new("1", "2");
    repo.create(&association).unwrap();
    repo.delete(&association).unwrap();
    assert_eq!(false, repo.has_association(&association));
}

#[test]
fn group_principal_repository_test_get_all() {
    let mut repo = GroupPrincipalRepository::new();
    repo.clear();

    repo.create(&PGroupPrincipal::new("1", "12")).unwrap();
    repo.create(&PGroupPrincipal::new("1", "13")).unwrap();
    repo.create(&PGroupPrincipal::new("2", "14")).unwrap();
    repo.create(&PGroupPrincipal::new("2", "15")).unwrap();

    let results = repo.get_by_group("1");
    assert_eq!(2, results.len());
    let results = repo.get_by_group("2");
    assert_eq!(2, results.len());
    let results = repo.get_by_principal("12");
    assert_eq!(1, results.len());
    let results = repo.get_by_principal("13");
    assert_eq!(1, results.len());
}
