#![allow(unused_variables, unused_mut)]

use chrono::{NaiveDate, Utc};
use plexrbac::common::SecurityContext;
use plexrbac::domain::models::ResourceQuota;
use plexrbac::persistence::resource_quota_repository::ResourceQuotaRepository;

#[test]
fn resource_quota_repository_test_create() {
    let ctx = SecurityContext::new("myorg", "myid");
    let mut repo = ResourceQuotaRepository::new();
    repo.clear();

    let quota  = repo.create(&ctx, &ResourceQuota::new("", "11", "22", "", 2, Utc::now().timestamp(), NaiveDate::from_ymd_opt(2100, 1, 1).unwrap().and_hms_opt(0, 0, 0).unwrap().and_utc().timestamp())).unwrap();
    let quota_str = format!("{:?}", quota);

    let loaded = repo.get(&ctx, quota.id.as_str()).unwrap();
    assert_eq!(quota_str, format!("{:?}", loaded));
}

#[test]
fn resource_quota_repository_test_update() {
    let ctx = SecurityContext::new("myorg", "myid");
    let mut repo = ResourceQuotaRepository::new();
    repo.clear();

    let quota  = repo.create(&ctx, &ResourceQuota::new("", "11", "22", "", 2, Utc::now().timestamp(), NaiveDate::from_ymd_opt(2100, 1, 1).unwrap().and_hms_opt(0, 0, 0).unwrap().and_utc().timestamp())).unwrap();
    let mut loaded = repo.get(&ctx, quota.id.as_str()).unwrap();
    loaded.max_value = 30;
    assert!(repo.update(&ctx, &loaded).is_ok());
    let loaded = repo.get(&ctx, loaded.id.as_str()).unwrap();
    assert_eq!(30, loaded.max_value);
}

#[test]
fn resource_quota_repository_test_delete() {
    let ctx = SecurityContext::new("myorg", "myid");
    let mut repo = ResourceQuotaRepository::new();
    repo.clear();

    let quota  = repo.create(&ctx, &ResourceQuota::new("", "11", "22", "", 2, Utc::now().timestamp(), NaiveDate::from_ymd_opt(2100, 1, 1).unwrap().and_hms_opt(0, 0, 0).unwrap().and_utc().timestamp())).unwrap();
    repo.delete(&ctx, quota.id.as_str()).unwrap();
    let loaded = repo.get(&ctx, quota.id.as_str());
    assert!(loaded.is_none());
}

#[test]
fn resource_quota_repository_test_get_by_resource() {
    let ctx = SecurityContext::new("myorg", "myid");
    let mut repo = ResourceQuotaRepository::new();
    repo.clear();

    let _ = repo.create(&ctx, &ResourceQuota::new("", "11", "22", "", 2, Utc::now().timestamp(), NaiveDate::from_ymd_opt(2100, 1, 1).unwrap().and_hms_opt(0, 0, 0).unwrap().and_utc().timestamp())).unwrap();
    let _ = repo.create(&ctx, &ResourceQuota::new("", "11", "23", "", 2, Utc::now().timestamp(), NaiveDate::from_ymd_opt(2100, 1, 1).unwrap().and_hms_opt(0, 0, 0).unwrap().and_utc().timestamp())).unwrap();
    let results = repo.get_by_resource_scope("11", "");
    assert_eq!(2, results.len());
    let results = repo.get_by_resource(&ctx, "11");
    assert_eq!(2, results.len());
}
