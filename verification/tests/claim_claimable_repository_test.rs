#![allow(unused_variables, unused_mut)]

use chrono::{NaiveDate, Utc};
use plexrbac::domain::models::Principal;
use plexrbac::persistence::claim_claimable_repository::ClaimClaimableRepository;
use plexrbac::persistence::models::PClaimClaimable;

#[test]
fn test_get_save() {
    let mut repo = ClaimClaimableRepository::new();
    repo.clear();

    let association = PClaimClaimable::new("1", "12", "Principal", "scope", "", Utc::now().timestamp(), NaiveDate::from_ymd_opt(2100, 1, 1).unwrap().and_hms_opt(0, 0, 0).unwrap().and_utc().timestamp());
    repo.create(&association).unwrap();
    assert_eq!(true, repo.has_association(&association));
}

#[test]
fn claim_claimable_repository_test_delete() {
    let mut repo = ClaimClaimableRepository::new();
    repo.clear();

    let association = PClaimClaimable::new("1", "12", "Principal", "scope", "", Utc::now().timestamp(), NaiveDate::from_ymd_opt(2100, 1, 1).unwrap().and_hms_opt(0, 0, 0).unwrap().and_utc().timestamp());
    repo.create(&association).unwrap();
    repo.delete(&association).unwrap();
    assert_eq!(false, repo.has_association(&association));
}

#[test]
fn claim_claimable_repository_test_get_all() {
    let mut repo = ClaimClaimableRepository::new();
    repo.clear();

    repo.create(&PClaimClaimable::new("1", "12", "Principal", "scope", "", Utc::now().timestamp(), NaiveDate::from_ymd_opt(2100, 1, 1).unwrap().and_hms_opt(0, 0, 0).unwrap().and_utc().timestamp())).unwrap();
    repo.create(&PClaimClaimable::new("1", "13", "Principal", "scope", "", Utc::now().timestamp(), NaiveDate::from_ymd_opt(2100, 1, 1).unwrap().and_hms_opt(0, 0, 0).unwrap().and_utc().timestamp())).unwrap();
    repo.create(&PClaimClaimable::new("2", "14", "Principal", "scope", "", Utc::now().timestamp(), NaiveDate::from_ymd_opt(2100, 1, 1).unwrap().and_hms_opt(0, 0, 0).unwrap().and_utc().timestamp())).unwrap();
    repo.create(&PClaimClaimable::new("2", "15", "Principal", "scope", "", Utc::now().timestamp(), NaiveDate::from_ymd_opt(2100, 1, 1).unwrap().and_hms_opt(0, 0, 0).unwrap().and_utc().timestamp())).unwrap();

    let results = repo.get_by_claims(vec!["1".to_string()]);
    assert_eq!(2, results.len());
    let results = repo.get_by_claimables(vec!["12".to_string()], "Principal".to_string());
    assert_eq!(1, results.len());
}
