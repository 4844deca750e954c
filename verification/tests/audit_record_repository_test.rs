#![allow(unused_variables, unused_mut)]

use plexrbac::persistence::audit_record_repository::AuditRecordRepository;
use plexrbac::persistence::models::PAuditRecord;

#[test]
fn audit_record_repository_test_save() {
    let mut repo = AuditRecordRepository::new();
    repo.clear();

    let record = PAuditRecord::new("mymessage", Some("maction".to_string()), Some("mcontext".to_string()));
    let record_str = format!("{:?}", record);
    repo.create(&record).unwrap();

    let loaded = repo.get(record.id.as_str()).unwrap();
    assert_eq!(record_str, format!("{:?}", loaded));
}

#[test]
fn test_get_latest() {
    let mut repo = AuditRecordRepository::new();
    repo.clear();

    repo.create(&PAuditRecord::new("mymessage1", None, None)).unwrap();
    repo.create(&PAuditRecord::new("mymessage2", None, None)).unwrap();
    let results = repo.latest(10);
    assert_eq!(2, results.len());
}
