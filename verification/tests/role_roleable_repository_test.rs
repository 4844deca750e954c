#![allow(unused_variables, unused_mut)]

use chrono::{NaiveDate, Utc};
use plexrbac::persistence::models::PRoleRoleable;
use plexrbac::persistence::role_roleable_repository::RoleRoleableRepository;

#[test]
fn test_exists() {
    let mut repo = RoleRoleableRepository::new();
    repo.clear();

    let rr = PRoleRoleable::new("1", "12", "principal", "", Utc::now().timestamp(), NaiveDate::from_ymd_opt(2100, 1, 1).unwrap().and_hms_opt(0, 0, 0).unwrap().and_utc().timestamp());
    repo.create(&rr).unwrap();
    assert_eq!(true, repo.has_association(&rr));
}

#[test]
fn role_roleable_repository_test_delete() {
    let mut repo = RoleRoleableRepository::new();
    repo.clear();
    let rr = PRoleRoleable::new("1", "12", "principal", "", Utc::now().timestamp(), NaiveDate::from_ymd_opt(2100, 1, 1).unwrap().and_hms_opt(0, 0, 0).unwrap().and_utc().timestamp());
    repo.create(&rr).unwrap();
    repo.delete(&rr).unwrap();
    assert_eq!(false, repo.has_association(&rr));
}

#[test]
fn role_roleable_repository_test_get_all() {
    let mut repo = RoleRoleableRepository::new();
    repo.clear();

    repo.create(&PRoleRoleable::new("1", "12", "principal", "", Utc::now().timestamp(), NaiveDate::from_ymd_opt(2100, 1, 1).unwrap().and_hms_opt(0, 0, 0).unwrap().and_utc().timestamp())).unwrap();
    repo.create(&PRoleRoleable::new("1", "13", "principal", "", Utc::now().timestamp(), NaiveDate::from_ymd_opt(2100, 1, 1).unwrap().and_hms_opt(0, 0, 0).unwrap().and_utc().timestamp())).unwrap();
    repo.create(&PRoleRoleable::new("2", "14", "group", "", Utc::now().timestamp(), NaiveDate::from_ymd_opt(2100, 1, 1).unwrap().and_hms_opt(0, 0, 0).unwrap().and_utc().timestamp())).unwrap();
    repo.create(&PRoleRoleable::new("2", "15", "group", "", Utc::now().timestamp(), NaiveDate::from_ymd_opt(2100, 1, 1).unwrap().and_hms_opt(0, 0, 0).unwrap().and_utc().timestamp())).unwrap();

    let results = repo.get_by_role("1");
    assert_eq!(2, results.len());
    let results = repo.get_by_roleable("12", "principal");
    assert_eq!(1, results.len());
}
