#![allow(unused_variables, unused_mut)]

use chrono::{Datelike, NaiveDate, Utc};
use evalexpr::ContextWithMutableFunctions;
use plexrbac::common::{ActionType, Constants, SecurityContext, Status, ValueWrapper};
use plexrbac::domain::models::{
    Claim, Group, LicensePolicy, Organization, Principal, Resource, ResourceInstance, ResourceQuota,
    Role, SecurityRealm,
};
use plexrbac::persistence::manager::PersistenceManager;
use plexrbac::security::manager::SecurityManager;
use plexrbac::security::request::PermissionRequest;
use plexrbac::security::response::PermissionResponse;

fn to_radians(degrees: f64) -> f64 {
    degrees * std::f64::consts::PI / 180.0
}

fn distance_km(lat1: f64, lon1: f64, lat2: f64, lon2: f64) -> f64 {
    let earth_radius_km: f64 = 6371.0;
    let deg_lat = to_radians(lat2 - lat1);
    let deg_lon = to_radians(lon2 - lon1);
    let lat1 = to_radians(lat1);
    let lat2 = to_radians(lat2);
    let a = (deg_lat / 2.0).sin() * (deg_lat / 2.0).sin()
        + (deg_lon / 2.0).sin() * (deg_lon / 2.0).sin() * lat1.cos() * lat2.cos();
    let c = 2.0 * a.sqrt().atan2((1.0 - a).sqrt());
    earth_radius_km * c
}

fn geo_functions() -> evalexpr::HashMapContext {
    let mut functions = evalexpr::HashMapContext::new();
    functions
        .set_function(
            "geo_distance_km".to_string(),
            evalexpr::Function::new(|arg| {
                let args = arg.as_fixed_len_tuple(4)?;
                Ok(evalexpr::Value::Float(distance_km(
                    args[0].as_number()?,
                    args[1].as_number()?,
                    args[2].as_number()?,
                    args[3].as_number()?,
                )))
            }),
        )
        .unwrap();
    functions
}

#[test]
fn test_get_full_org() {
    let ctx = SecurityContext::new("myorg", "myid");
    let mut pm = PersistenceManager::new();
    pm.clear();
    let realm = pm.realm_repository.create(&ctx, &SecurityRealm::new("myrealm", None)).unwrap();
    let org = pm.org_repository.create(&ctx, &Organization::new("", None, "myorg", "url", None)).unwrap();
    let license_policy = pm.license_policy_repository.create(&ctx, &LicensePolicy::new("", org.id.as_str(), "default-policy", Some("desc".to_string()), Utc::now().timestamp(), NaiveDate::from_ymd_opt(2100, 1, 1).unwrap().and_hms_opt(0, 0, 0).unwrap().and_utc().timestamp())).unwrap();
    let org_str = format!("{:?}", org);
    let loaded = pm.get_org(&ctx, realm.id.as_str(), org.id.as_str()).unwrap();
    assert_eq!(org_str, format!("{:?}", loaded));
    pm.license_policy_repository.get(&ctx, org.id.as_str(), license_policy.id.as_str()).unwrap();
}

#[test]
fn test_get_full_principal() {
    let ctx = SecurityContext::new("myorg", "myid");
    let mut pm = PersistenceManager::new();
    pm.clear();
    let realm = pm.realm_repository.create(&ctx, &SecurityRealm::new("myrealm", None)).unwrap();
    let org = pm.org_repository.create(&ctx, &Organization::new("", None, "myorg", "url", None)).unwrap();
    let license_policy = pm.license_policy_repository.create(&ctx, &LicensePolicy::new("", org.id.as_str(), "default-policy", Some("desc".to_string()), Utc::now().timestamp(), NaiveDate::from_ymd_opt(2100, 1, 1).unwrap().and_hms_opt(0, 0, 0).unwrap().and_utc().timestamp())).unwrap();
    //
    let principal = pm.principal_repository.create(&ctx, &Principal::new("", org.id.as_str(), "myusername-principal", Some("desc".to_string()))).unwrap();
    let principal_str = format!("{:?}", principal);
    let loaded = pm.get_principal(&ctx, realm.id.as_str(), principal.id.as_str()).unwrap();
    assert_eq!(principal_str, format!("{:?}", loaded));
    pm.license_policy_repository.get(&ctx, org.id.as_str(), license_policy.id.as_str()).unwrap();
}

#[test]
fn test_add_delete_principal_to_group() {
    let ctx = SecurityContext::new("myorg", "myid");
    let mut pm = PersistenceManager::new();
    pm.clear();
    let org = pm.org_repository.create(&ctx, &Organization::new("", None, "myorg", "url", None)).unwrap();
    let group = pm.group_repository.create(&ctx, &Group::new("", org.id.as_str(), "mygroup", Some("desc".to_string()), Some("parent".to_string()))).unwrap();
    let principal = pm.principal_repository.create(&ctx, &Principal::new("", org.id.as_str(), "myusername", None)).unwrap();
    assert!(pm.group_principal_repository.add_principal_to_group(&ctx, group.id.as_str(), principal.id.as_str()).is_ok());
    assert!(pm.group_principal_repository.delete_principal_from_group(&ctx, group.id.as_str(), principal.id.as_str()).is_ok());
}

#[test]
fn test_add_delete_principal_to_role() {
    let ctx = SecurityContext::new("myorg", "myid");
    let mut pm = PersistenceManager::new();
    pm.clear();
    let realm = pm.realm_repository.create(&ctx, &SecurityRealm::new("myrealm", None)).unwrap();
    let org = pm.org_repository.create(&ctx, &Organization::new("", None, "myorg", "url", None)).unwrap();
    //
    let role = pm.role_repository.create(&ctx, &Role::new("", realm.id.as_str(), org.id.as_str(), "myrole", Some("desc".to_string()), Some("parent".to_string()))).unwrap();
    let principal = pm.principal_repository.create(&ctx, &Principal::new("", org.id.as_str(), "myusername", None)).unwrap();

    assert!(pm.role_roleable_repository.add_principal_to_role(&ctx, role.id.as_str(), principal.id.as_str(), "", Utc::now().timestamp(), NaiveDate::from_ymd_opt(2100, 1, 1).unwrap().and_hms_opt(0, 0, 0).unwrap().and_utc().timestamp()).is_ok());
    assert!(pm.role_roleable_repository.delete_principal_from_role(&ctx, role.id.as_str(), principal.id.as_str()).is_ok());
}

#[test]
fn test_add_delete_principal_to_claims() {
    let ctx = SecurityContext::new("myorg", "myid");
    let mut pm = PersistenceManager::new();
    pm.clear();
    let realm = pm.realm_repository.create(&ctx, &SecurityRealm::new("myrealm", None)).unwrap();
    let org = pm.org_repository.create(&ctx, &Organization::new("", None, "myorg", "url", None)).unwrap();
    let principal = pm.principal_repository.create(&ctx, &Principal::new("", org.id.as_str(), "myusername", None)).unwrap();
    let resource = pm.new_resource_with(&ctx, &realm, "report").unwrap();
    let claim1 = pm.claim_repository.create(&ctx, &Claim::new("", realm.id.as_str(), resource.id.as_str(), "READ", Constants::Deny.to_string().as_str(), None)).unwrap();
    let claim2 = pm.claim_repository.create(&ctx, &Claim::new("", realm.id.as_str(), resource.id.as_str(), "UPDATE", Constants::Allow.to_string().as_str(), None)).unwrap();
    assert!(pm.claim_claimable_repository.add_principal_to_claim(&ctx, principal.id.as_str(), claim1.id.as_str(), "", "", Utc::now().timestamp(), NaiveDate::from_ymd_opt(2100, 1, 1).unwrap().and_hms_opt(0, 0, 0).unwrap().and_utc().timestamp()).is_ok());
    assert!(pm.claim_claimable_repository.add_principal_to_claim(&ctx, principal.id.as_str(), claim2.id.as_str(), "", "", Utc::now().timestamp(), NaiveDate::from_ymd_opt(2100, 1, 1).unwrap().and_hms_opt(0, 0, 0).unwrap().and_utc().timestamp()).is_ok());
    assert!(pm.claim_claimable_repository.delete_principal_from_claim(&ctx, principal.id.as_str(), claim1.id.as_str()).is_ok());
    assert!(pm.claim_claimable_repository.delete_principal_from_claim(&ctx, principal.id.as_str(), claim2.id.as_str()).is_ok());
}

#[test]
fn test_add_delete_role_to_claims() {
    let ctx = SecurityContext::new("myorg", "myid");
    let mut pm = PersistenceManager::new();
    pm.clear();
    let realm = pm.realm_repository.create(&ctx, &SecurityRealm::new("myrealm", None)).unwrap();
    let org = pm.org_repository.create(&ctx, &Organization::new("", None, "myorg", "url", None)).unwrap();
    let role = pm.role_repository.create(&ctx, &Role::new("", realm.id.as_str(), org.id.as_str(), "myrole", None, None)).unwrap();
    let resource = pm.new_resource_with(&ctx, &realm, "report").unwrap();
    let claim1 = pm.claim_repository.create(&ctx, &Claim::new("", realm.id.as_str(), resource.id.as_str(), "READ", Constants::Deny.to_string().as_str(), None)).unwrap();
    let claim2 = pm.claim_repository.create(&ctx, &Claim::new("", realm.id.as_str(), resource.id.as_str(), "UPDATE", Constants::Allow.to_string().as_str(), None)).unwrap();
    assert!(pm.claim_claimable_repository.add_role_to_claim(&ctx, role.id.as_str(), claim1.id.as_str(), "", "", Utc::now().timestamp(), NaiveDate::from_ymd_opt(2100, 1, 1).unwrap().and_hms_opt(0, 0, 0).unwrap().and_utc().timestamp()).is_ok());
    assert!(pm.claim_claimable_repository.add_role_to_claim(&ctx, role.id.as_str(), claim2.id.as_str(), "", "", Utc::now().timestamp(), NaiveDate::from_ymd_opt(2100, 1, 1).unwrap().and_hms_opt(0, 0, 0).unwrap().and_utc().timestamp()).is_ok());
    assert!(pm.claim_claimable_repository.delete_role_from_claim(&ctx, role.id.as_str(), claim1.id.as_str()).is_ok());
    assert!(pm.claim_claimable_repository.delete_role_from_claim(&ctx, role.id.as_str(), claim2.id.as_str()).is_ok());
}

#[test]
fn test_get_save_resource_quota() {
    let ctx = SecurityContext::new("myorg", "myid");
    let mut pm = PersistenceManager::new();
    pm.clear();
    let realm = pm.realm_repository.create(&ctx, &SecurityRealm::new("myrealm", None)).unwrap();

    let resource = pm.new_resource_with(&ctx, &realm, "report").unwrap();
    let loaded = pm.resource_repository.get(&ctx, "myrealm", resource.id.as_str()).unwrap();
    assert_eq!(format!("{:?}", resource), format!("{:?}", loaded));

    let org = pm.org_repository.create(&ctx, &Organization::new("", None, "myorg", "url", None)).unwrap();

    let policy = pm.license_policy_repository.create(&ctx, &LicensePolicy::new("", org.id.as_str(), "default-policy", Some("desc".to_string()), Utc::now().timestamp(), NaiveDate::from_ymd_opt(2100, 1, 1).unwrap().and_hms_opt(0, 0, 0).unwrap().and_utc().timestamp())).unwrap();

    let _ = pm.resource_quota_repository.create(&ctx, &ResourceQuota::new("", resource.id.as_str(), policy.id.as_str(), "", 2, Utc::now().timestamp(), NaiveDate::from_ymd_opt(2100, 1, 1).unwrap().and_hms_opt(0, 0, 0).unwrap().and_utc().timestamp())).unwrap();

    let instance = pm.resource_instance_repository._create(&ctx, &ResourceInstance::new("", resource.id.as_str(), "22", "", "refid", "INFLIGHT", Some("blah".to_string()))).unwrap();

    let loaded = pm.resource_instance_repository.get(&ctx, instance.id.as_str()).unwrap();
    assert_eq!(format!("{:?}", instance), format!("{:?}", loaded));

    let quota = pm.resource_quota_repository.create(&ctx, &ResourceQuota::new("", resource.id.as_str(), "22", "", 22, Utc::now().timestamp(), NaiveDate::from_ymd_opt(2100, 1, 1).unwrap().and_hms_opt(0, 0, 0).unwrap().and_utc().timestamp())).unwrap();
    let loaded = pm.resource_quota_repository.get(&ctx, quota.id.as_str()).unwrap();
    assert_eq!(format!("{:?}", quota), format!("{:?}", loaded));
}

#[test]
fn test_add_delete_claims_to_license_policy() {
    let ctx = SecurityContext::new("myorg", "myid");
    let mut pm = PersistenceManager::new();
    pm.clear();
    let realm = pm.realm_repository.create(&ctx, &SecurityRealm::new("myrealm", None)).unwrap();
    let org = pm.org_repository.create(&ctx, &Organization::new("", None, "myorg", "url", None)).unwrap();
    let license_policy = pm.license_policy_repository.create(&ctx, &LicensePolicy::new("", org.id.as_str(), "default-policy", Some("desc".to_string()), Utc::now().timestamp(), NaiveDate::from_ymd_opt(2100, 1, 1).unwrap().and_hms_opt(0, 0, 0).unwrap().and_utc().timestamp())).unwrap();

    let resource = pm.new_resource_with(&ctx, &realm, "report").unwrap();
    let claim1 = pm.claim_repository.create(&ctx, &Claim::new("", realm.id.as_str(), resource.id.as_str(), "READ", "allow", None)).unwrap();
    let claim2 = pm.claim_repository.create(&ctx, &Claim::new("", realm.id.as_str(), resource.id.as_str(), "UPDATE", "allow", None)).unwrap();

    assert!(pm.claim_claimable_repository.add_license_policy_to_claim(&ctx, license_policy.id.as_str(), claim1.id.as_str(), "", "", Utc::now().timestamp(), NaiveDate::from_ymd_opt(2100, 1, 1).unwrap().and_hms_opt(0, 0, 0).unwrap().and_utc().timestamp()).is_ok());
    assert!(pm.claim_claimable_repository.add_license_policy_to_claim(&ctx, license_policy.id.as_str(), claim2.id.as_str(), "", "", Utc::now().timestamp(), NaiveDate::from_ymd_opt(2100, 1, 1).unwrap().and_hms_opt(0, 0, 0).unwrap().and_utc().timestamp()).is_ok());
    assert!(pm.claim_claimable_repository.delete_license_policy_from_claim(&ctx, license_policy.id.as_str(), claim1.id.as_str()).is_ok());
    assert!(pm.claim_claimable_repository.delete_license_policy_from_claim(&ctx, license_policy.id.as_str(), claim2.id.as_str()).is_ok());

    let loaded = pm.license_policy_repository.get(&ctx, org.id.as_str(), license_policy.id.as_str()).unwrap();
    assert_eq!(format!("{:?}", license_policy), format!("{:?}", loaded));
}

#[test]
fn test_populate_org() {
    let ctx = SecurityContext::new("myorg", "myid");
    let mut pm = PersistenceManager::new();
    pm.clear();
    let realm = pm.realm_repository.create(&ctx, &SecurityRealm::new("myrealm", None)).unwrap();
    let org = pm.org_repository.create(&ctx, &Organization::new("", None, "myorg", "url", None)).unwrap();
    let license_policy = pm.license_policy_repository.create(&ctx, &LicensePolicy::new("", org.id.as_str(), "default-policy", Some("desc".to_string()), Utc::now().timestamp(), NaiveDate::from_ymd_opt(2100, 1, 1).unwrap().and_hms_opt(0, 0, 0).unwrap().and_utc().timestamp())).unwrap();
    pm.role_repository.create(&ctx, &Role::new("", realm.id.as_str(), org.id.as_str(), "admin", None, None)).unwrap();
    pm.role_repository.create(&ctx, &Role::new("", realm.id.as_str(), org.id.as_str(), "employee", None, None)).unwrap();
    pm.role_repository.create(&ctx, &Role::new("", realm.id.as_str(), org.id.as_str(), "manager", None, None)).unwrap();
    pm.group_repository.create(&ctx, &Group::new("", org.id.as_str(), "default", Some("desc".to_string()), Some("parent".to_string()))).unwrap();
    pm.group_repository.create(&ctx, &Group::new("", org.id.as_str(), "devops", Some("desc".to_string()), Some("parent".to_string()))).unwrap();

    let resource = pm.new_resource_with(&ctx, &realm, "report").unwrap();
    let claim1 = pm.claim_repository.create(&ctx, &Claim::new("", realm.id.as_str(), resource.id.as_str(), "READ", "allow", None)).unwrap();
    let claim2 = pm.claim_repository.create(&ctx, &Claim::new("", realm.id.as_str(), resource.id.as_str(), "UPDATE", "allow", None)).unwrap();
    pm.claim_claimable_repository.add_license_policy_to_claim(&ctx, license_policy.id.as_str(), claim1.id.as_str(), "", "", Utc::now().timestamp(), NaiveDate::from_ymd_opt(2100, 1, 1).unwrap().and_hms_opt(0, 0, 0).unwrap().and_utc().timestamp()).unwrap();
    pm.claim_claimable_repository.add_license_policy_to_claim(&ctx, license_policy.id.as_str(), claim2.id.as_str(), "", "", Utc::now().timestamp(), NaiveDate::from_ymd_opt(2100, 1, 1).unwrap().and_hms_opt(0, 0, 0).unwrap().and_utc().timestamp()).unwrap();
    let loaded = pm.get_org(&ctx, realm.id.as_str(), org.id.as_str()).unwrap();
    assert_eq!(3, loaded.roles.len());
    assert_eq!(2, loaded.groups.len());
    assert_eq!(2, loaded.claims.len());
}

#[test]
fn test_populate_principal() {
    let ctx = SecurityContext::new("myorg", "myid");
    let mut pm = PersistenceManager::new();
    pm.clear();
    let realm = pm.realm_repository.create(&ctx, &SecurityRealm::new("myrealm", None)).unwrap();
    let org = pm.org_repository.create(&ctx, &Organization::new("", None, "myorg", "url", None)).unwrap();
    let license_policy = pm.license_policy_repository.create(&ctx, &LicensePolicy::new("", org.id.as_str(), "default-policy", Some("desc".to_string()), Utc::now().timestamp(), NaiveDate::from_ymd_opt(2100, 1, 1).unwrap().and_hms_opt(0, 0, 0).unwrap().and_utc().timestamp())).unwrap();

    let org_employee_role = pm.role_repository.create(&ctx, &Role::new("", realm.id.as_str(), org.id.as_str(), "org_employee", None, None)).unwrap();
    let org_manager_role = pm.role_repository.create(&ctx, &Role::new("", realm.id.as_str(), org.id.as_str(), "org_manager", None, None)).unwrap();

    let _default_group_employee = pm.role_repository.create(&ctx, &Role::new("", realm.id.as_str(), org.id.as_str(), "default_group_employee", None, None)).unwrap();

    let principal = pm.principal_repository.create(&ctx, &Principal::new("", org.id.as_str(), "myusername", None)).unwrap();
    let default_group = pm.group_repository.create(&ctx, &Group::new("", org.id.as_str(), "default", Some("desc".to_string()), Some("parent".to_string()))).unwrap();
    pm.group_principal_repository.add_principal_to_group(&ctx, default_group.id.as_str(), principal.id.as_str()).unwrap();

    pm.role_roleable_repository.add_principal_to_role(&ctx, org_manager_role.id.as_str(), principal.id.as_str(), "", Utc::now().timestamp(), NaiveDate::from_ymd_opt(2100, 1, 1).unwrap().and_hms_opt(0, 0, 0).unwrap().and_utc().timestamp()).unwrap();
    pm.role_roleable_repository.add_group_to_role(&ctx, org_employee_role.id.as_str(), default_group.id.as_str(), "", Utc::now().timestamp(), NaiveDate::from_ymd_opt(2100, 1, 1).unwrap().and_hms_opt(0, 0, 0).unwrap().and_utc().timestamp()).unwrap();

    let resource = pm.new_resource_with(&ctx, &realm, "report").unwrap();
    let claim1 = pm.claim_repository.create(&ctx, &Claim::new("", realm.id.as_str(), resource.id.as_str(), "READ", "Allow", None)).unwrap();
    let claim2 = pm.claim_repository.create(&ctx, &Claim::new("", realm.id.as_str(), resource.id.as_str(), "UPDATE", "Allow", None)).unwrap();
    pm.claim_claimable_repository.add_license_policy_to_claim(&ctx, license_policy.id.as_str(), claim1.id.as_str(), "", "", Utc::now().timestamp(), NaiveDate::from_ymd_opt(2100, 1, 1).unwrap().and_hms_opt(0, 0, 0).unwrap().and_utc().timestamp()).unwrap();
    pm.claim_claimable_repository.add_license_policy_to_claim(&ctx, license_policy.id.as_str(), claim2.id.as_str(), "", "", Utc::now().timestamp(), NaiveDate::from_ymd_opt(2100, 1, 1).unwrap().and_hms_opt(0, 0, 0).unwrap().and_utc().timestamp()).unwrap();
    let loaded = pm.get_principal(&ctx, realm.id.as_str(), principal.id.as_str()).unwrap();
    assert_eq!(2, loaded.roles.len());
    assert_eq!(1, loaded.groups.len());
    assert!(pm.role_roleable_repository.delete_group_from_role(&ctx, org_employee_role.id.as_str(), default_group.id.as_str()).is_ok());
}

#[test]
fn test_banking() {

    // Initialize context and repository
    let ctx = SecurityContext::new("0".into(), "0".into());
    let mut pm = PersistenceManager::new();
    pm.clear();
    // Bootstrapping dependent data

    // Creating security realm
    let realm = pm.new_realm_with(&ctx, "banking").unwrap();

    // Creating organization
    let org = pm.new_org_with(&ctx, "bank-of-flakes").unwrap();

    // Creating Users
    let tom = pm.new_principal_with(&ctx, &org, "tom").unwrap();
    let cassy = pm.new_principal_with(&ctx, &org, "cassy").unwrap();
    let ali = pm.new_principal_with(&ctx, &org, "ali").unwrap();
    let mike = pm.new_principal_with(&ctx, &org, "mike").unwrap();
    let larry = pm.new_principal_with(&ctx, &org, "larry").unwrap();

    // Creating Roles
    let employee = pm.new_role_with(&ctx, &realm, &org, "Employee").unwrap();
    let teller = pm.new_role_with_parent(&ctx, &realm, &org, &employee, "Teller").unwrap();
    let csr = pm.new_role_with_parent(&ctx, &realm, &org, &teller, "CSR").unwrap();
    let accountant = pm.new_role_with_parent(&ctx, &realm, &org, &employee, "Accountant").unwrap();
    let accountant_manager = pm.new_role_with_parent(&ctx, &realm, &org, &accountant, "AccountingManager").unwrap();
    let loan_officer = pm.new_role_with_parent(&ctx, &realm, &org, &accountant_manager, "LoanOfficer").unwrap();

    // Creating Resources
    let deposit_account = pm.new_resource_with(&ctx, &realm, "DepositAccount").unwrap();
    let loan_account = pm.new_resource_with(&ctx, &realm, "LoanAccount").unwrap();
    let general_ledger = pm.new_resource_with(&ctx, &realm, "GeneralLedger").unwrap();
    let posting_rules = pm.new_resource_with(&ctx, &realm, "GeneralLedgerPostingRules").unwrap();

    // Creating claims for resources
    let cd_deposit = pm.new_claim_with(&ctx, &realm, &deposit_account, "(CREATE|DELETE)").unwrap();
    let ru_deposit = pm.new_claim_with(&ctx, &realm, &deposit_account, "(READ|UPDATE)").unwrap();

    let cd_loan = pm.new_claim_with(&ctx, &realm, &loan_account, "(CREATE|DELETE)").unwrap();
    let ru_loan = pm.new_claim_with(&ctx, &realm, &loan_account, "(READ|UPDATE)").unwrap();

    let rd_ledger = pm.new_claim_with(&ctx, &realm, &general_ledger, "(READ|CREATE|DELETE)").unwrap();
    let r_glpr = pm.new_claim_with(&ctx, &realm, &general_ledger, "(READ)").unwrap();

    let cud_glpr = pm.new_claim_with(&ctx, &realm, &posting_rules, "(CREATE|UPDATE|DELETE)").unwrap();

    // Mapping Principals and Claims to Roles
    pm.map_principal_to_role(&ctx, &tom, &teller).unwrap();
    pm.map_principal_to_role(&ctx, &cassy, &csr).unwrap();
    pm.map_principal_to_role(&ctx, &ali, &accountant).unwrap();
    pm.map_principal_to_role(&ctx, &mike, &accountant_manager).unwrap();
    pm.map_principal_to_role(&ctx, &larry, &loan_officer).unwrap();

    // Map claims to roles as follows:
    pm.map_role_to_claim(&ctx, &teller, &ru_deposit, "U.S.", r#"employeeRegion == "Midwest""#).unwrap();
    pm.map_role_to_claim(&ctx, &csr, &cd_deposit, "U.S.", r#"employeeRegion == "Midwest""#).unwrap();
    pm.map_role_to_claim(&ctx, &accountant, &rd_ledger, "U.S.", r#"employeeRegion == "Midwest" && ledgerYear == current_year()"#).unwrap();
    pm.map_role_to_claim(&ctx, &accountant, &ru_loan, "U.S.", r#"employeeRegion == "Midwest" && accountBlance < 10000"#).unwrap();
    pm.map_role_to_claim(&ctx, &accountant_manager, &cd_loan, "U.S.", r#"employeeRegion == "Midwest" && accountBlance < 10000"#).unwrap();
    pm.map_role_to_claim(&ctx, &accountant_manager, &r_glpr, "U.S.", r#"employeeRegion == "Midwest" && ledgerYear == current_year()"#).unwrap();
    pm.map_role_to_claim(&ctx, &loan_officer, &cud_glpr, "U.S.", r#"employeeRegion == "Midwest" && ledgerYear == current_year()"#).unwrap();

    let mut sm = SecurityManager::new(pm);
    // Tom, the teller should be able to READ DepositAccount with scope U.S when employeeRegion
    // == Midwest
    let mut req = PermissionRequest::new(realm.id.as_str(), tom.id.as_str(), ActionType::READ, "DepositAccount", "U.S.");
    req.context.add("employeeRegion", ValueWrapper::String("Midwest".to_string()));
    assert_eq!(PermissionResponse::Allow, sm.check(&req).unwrap());

    // Tom, the teller should not be able to READ DepositAccount with scope U.S when employeeRegion
    // == Northeast
    let mut req = PermissionRequest::new(realm.id.as_str(), tom.id.as_str(), ActionType::READ, "DepositAccount", "U.S.");
    req.context.add("employeeRegion", ValueWrapper::String("Northeast".to_string()));
    assert!(sm.check(&req).is_err());

    // Tom, the teller should not be able to DELETE DepositAccount with scope U.S when employeeRegion
    // == Midwest
    let mut req = PermissionRequest::new(realm.id.as_str(), tom.id.as_str(), ActionType::DELETE, "DepositAccount", "U.S.");
    req.context.add("employeeRegion", ValueWrapper::String("Midwest".to_string()));
    assert!(sm.check(&req).is_err());

    // Cassy, the CSR should be able to DELETE DepositAccount with scope U.S when employeeRegion
    // == Midwest
    let mut req = PermissionRequest::new(realm.id.as_str(), cassy.id.as_str(), ActionType::DELETE, "DepositAccount", "U.S.");
    req.context.add("employeeRegion", ValueWrapper::String("Midwest".to_string()));
    assert_eq!(PermissionResponse::Allow, sm.check(&req).unwrap());

    // Cassy, the CSR should be able to DELETE DepositAccount with scope U.K when employeeRegion
    // == Midwest
    let mut req = PermissionRequest::new(realm.id.as_str(), cassy.id.as_str(), ActionType::DELETE, "DepositAccount", "U.K.");
    req.context.add("employeeRegion", ValueWrapper::String("Midwest".to_string()));
    assert!(sm.check(&req).is_err());

    // Ali, the Accountant should be able to READ GeneralLedger with scope U.S when employeeRegion
    // == Midwest AND ledgerYear == current_year()
    let mut req = PermissionRequest::new(realm.id.as_str(), ali.id.as_str(), ActionType::READ, "GeneralLedger", "U.S.");
    req.context.add("employeeRegion", ValueWrapper::String("Midwest".to_string()));
    req.context.add("ledgerYear", ValueWrapper::Int(Utc::now().year() as i64));
    assert_eq!(PermissionResponse::Allow, sm.check(&req).unwrap());

    // Ali, the Accountant should not be able to READ GeneralLedger with scope U.S when employeeRegion
    // == Midwest AND ledgerYear is in past
    req.context.add("ledgerYear", ValueWrapper::Int(2000));
    assert!(sm.check(&req).is_err());

    // Ali, the Accountant holds (READ|CREATE|DELETE) on GeneralLedger with scope U.S, so DELETE is
    // allowed when employeeRegion == Midwest AND ledgerYear == current_year()
    let mut req = PermissionRequest::new(realm.id.as_str(), ali.id.as_str(), ActionType::DELETE, "GeneralLedger", "U.S.");
    req.context.add("employeeRegion", ValueWrapper::String("Midwest".to_string()));
    req.context.add("ledgerYear", ValueWrapper::Int(Utc::now().year() as i64));
    assert_eq!(PermissionResponse::Allow, sm.check(&req).unwrap());

    // Ali, the Accountant should not be able to UPDATE GeneralLedger with scope U.S
    let mut req = PermissionRequest::new(realm.id.as_str(), ali.id.as_str(), ActionType::UPDATE, "GeneralLedger", "U.S.");
    req.context.add("employeeRegion", ValueWrapper::String("Midwest".to_string()));
    req.context.add("ledgerYear", ValueWrapper::Int(Utc::now().year() as i64));
    assert!(sm.check(&req).is_err());

    // Mike, the Accountant Manager should be able to DELETE GeneralLedger with scope U.S when employeeRegion
    // == Midwest AND ledgerYear == current_year()
    let mut req = PermissionRequest::new(realm.id.as_str(), mike.id.as_str(), ActionType::CREATE, "GeneralLedger", "U.S.");
    req.context.add("employeeRegion", ValueWrapper::String("Midwest".to_string()));
    req.context.add("ledgerYear", ValueWrapper::Int(Utc::now().year() as i64));
    assert_eq!(PermissionResponse::Allow, sm.check(&req).unwrap());

    // Mike, the Accountant Manager should not be able to post posting-rules of general-ledger with scope U.S 
    // when employeeRegion == Midwest AND ledgerYear == current_year()
    let mut req = PermissionRequest::new(realm.id.as_str(), mike.id.as_str(), ActionType::CREATE, "GeneralLedgerPostingRules", "U.S.");
    req.context.add("employeeRegion", ValueWrapper::String("Midwest".to_string()));
    req.context.add("ledgerYear", ValueWrapper::Int(Utc::now().year() as i64));
    req.context.add("accountBlance", ValueWrapper::Int(500));
    assert!(sm.check(&req).is_err());

    // Larry, the Loan Officer should be able to post posting-rules of general-ledger with scope U.S 
    // when employeeRegion == Midwest AND ledgerYear == current_year()
    let mut req = PermissionRequest::new(realm.id.as_str(), larry.id.as_str(), ActionType::CREATE, "GeneralLedgerPostingRules", "U.S.");
    req.context.add("employeeRegion", ValueWrapper::String("Midwest".to_string()));
    req.context.add("ledgerYear", ValueWrapper::Int(Utc::now().year() as i64));
    req.context.add("accountBlance", ValueWrapper::Int(500));
    assert_eq!(PermissionResponse::Allow, sm.check(&req).unwrap());

    sm.persistence_manager.unmap_role_from_claim(&ctx, &teller, &ru_deposit).unwrap();
    sm.persistence_manager.unmap_role_from_claim(&ctx, &csr, &cd_deposit).unwrap();
    sm.persistence_manager.unmap_role_from_claim(&ctx, &accountant, &rd_ledger).unwrap();
    sm.persistence_manager.unmap_role_from_claim(&ctx, &accountant, &ru_loan).unwrap();
    sm.persistence_manager.unmap_role_from_claim(&ctx, &accountant_manager, &cd_loan).unwrap();
    sm.persistence_manager.unmap_role_from_claim(&ctx, &accountant_manager, &r_glpr).unwrap();
    sm.persistence_manager.unmap_role_from_claim(&ctx, &loan_officer, &cud_glpr).unwrap();

    sm.persistence_manager.unmap_role_from_claim(&ctx, &loan_officer, &cud_glpr).unwrap();
    assert_eq!(7, sm.persistence_manager.claim_repository.get_claims_by_realm(&ctx, realm.id.as_str()).len());
    assert_eq!(7, sm.persistence_manager.get_claims_by_policy(&ctx, realm.id.as_str(), "99").len());

    sm.persistence_manager.unmap_principal_from_role(&ctx, &tom, &teller).unwrap();
    sm.persistence_manager.unmap_principal_from_role(&ctx, &cassy, &csr).unwrap();
    sm.persistence_manager.unmap_principal_from_role(&ctx, &ali, &accountant).unwrap();
    sm.persistence_manager.unmap_principal_from_role(&ctx, &mike, &accountant_manager).unwrap();
    sm.persistence_manager.unmap_principal_from_role(&ctx, &larry, &loan_officer).unwrap();
}

#[test]
fn test_expense_report_with_groups() {
    // Initialize context and repository
    let ctx = SecurityContext::new("0".into(), "0".into());
    let mut pm = PersistenceManager::new();
    pm.clear();
    // Bootstrapping dependent data

    // Creating security realm
    let realm = pm.new_realm_with(&ctx, "hypatia").unwrap();

    // Creating organization
    let org = pm.new_org_with(&ctx, "hypatia").unwrap();

    // Creating Groups
    let group_employee = pm.new_group_with(&ctx, &org, "Employee").unwrap();
    let group_manager = pm.new_group_with_parent(&ctx, &org, &group_employee, "Manager").unwrap();

    // Creating Users
    let tom = pm.new_principal_with(&ctx, &org, "tom").unwrap();
    let mike = pm.new_principal_with(&ctx, &org, "mike").unwrap();

    // Mapping users to groups
    pm.map_principal_to_group(&ctx, &tom, &group_employee).unwrap();
    pm.map_principal_to_group(&ctx, &mike, &group_employee).unwrap();
    pm.map_principal_to_group(&ctx, &mike, &group_manager).unwrap();

    // Creating Roles
    let employee = pm.new_role_with(&ctx, &realm, &org, "Employee").unwrap();
    let manager = pm.new_role_with_parent(&ctx, &realm, &org, &employee, "Manager").unwrap();

    // Creating Resources
    let expense_report = pm.new_resource_with(&ctx, &realm, "ExpenseReport").unwrap();

    // Creating claims for resources
    let submit_report = pm.new_claim_with(&ctx, &realm, &expense_report, "SUBMIT").unwrap();
    let approve_report = pm.new_claim_with(&ctx, &realm, &expense_report, "APPROVE").unwrap();

    // Mapping Principals and Claims to Roles
    pm.map_group_to_role(&ctx, &group_employee, &employee, "").unwrap();
    pm.map_group_to_role(&ctx, &group_manager, &manager, "").unwrap();

    // Map claims to roles as follows:
    pm.map_role_to_claim(&ctx, &employee, &submit_report, "U.S.", r#"amount < 10000"#).unwrap();
    pm.map_role_to_claim(&ctx, &manager, &approve_report, "U.S.", r#"amount < 10000"#).unwrap();

    let mut sm = SecurityManager::new(pm);
    // Tom should be able to submit report
    let mut req = PermissionRequest::new(realm.id.as_str(), tom.id.as_str(), ActionType::SUBMIT, "ExpenseReport", "U.S.");
    req.context.add("amount", ValueWrapper::Int(1000));
    assert_eq!(PermissionResponse::Allow, sm.check(&req).unwrap());

    // Tom should not be able to approve report
    let mut req = PermissionRequest::new(realm.id.as_str(), tom.id.as_str(), ActionType::APPROVE, "ExpenseReport", "U.S.");
    req.context.add("amount", ValueWrapper::Int(1000));
    assert!(sm.check(&req).is_err());

    // Mike should be able to approve report
    let mut req = PermissionRequest::new(realm.id.as_str(), mike.id.as_str(), ActionType::APPROVE, "ExpenseReport", "U.S.");
    req.context.add("amount", ValueWrapper::Int(1000));
    assert_eq!(PermissionResponse::Allow, sm.check(&req).unwrap());

    sm.persistence_manager.unmap_principal_from_group(&ctx, &tom, &group_employee).unwrap();
    sm.persistence_manager.unmap_principal_from_group(&ctx, &mike, &group_employee).unwrap();
    sm.persistence_manager.unmap_principal_from_group(&ctx, &mike, &group_manager).unwrap();

    sm.persistence_manager.unmap_group_from_role(&ctx, &group_employee, &employee).unwrap();
    sm.persistence_manager.unmap_group_from_role(&ctx, &group_manager, &manager).unwrap();
}

#[test]
fn test_expense_report_with_direct_claim_to_principal() {
    // Initialize context and repository
    let ctx = SecurityContext::new("0".into(), "0".into());
    let mut pm = PersistenceManager::new();
    pm.clear();
    // Bootstrapping dependent data

    // Creating security realm
    let realm = pm.new_realm_with(&ctx, "rainier").unwrap();

    // Creating organization
    let org = pm.new_org_with(&ctx, "rainier").unwrap();

    // Creating Users
    let tom = pm.new_principal_with(&ctx, &org, "tom").unwrap();
    let mike = pm.new_principal_with(&ctx, &org, "mike").unwrap();

    // Creating Resources
    let expense_report = pm.new_resource_with(&ctx, &realm, "ExpenseReport").unwrap();

    // Creating claims for resources
    let submit_report = pm.new_claim_with(&ctx, &realm, &expense_report, "SUBMIT").unwrap();
    let approve_report = pm.new_claim_with(&ctx, &realm, &expense_report, "APPROVE").unwrap();

    // Map claims to roles as follows:
    pm.map_principal_to_claim(&ctx, &tom, &submit_report, "U.S.", r#"amount < 10000"#).unwrap();
    pm.map_principal_to_claim(&ctx, &mike, &approve_report, "U.S.", r#"amount < 10000"#).unwrap();

    let mut sm = SecurityManager::new(pm);
    // Tom should be able to submit report
    let mut req = PermissionRequest::new(realm.id.as_str(), tom.id.as_str(), ActionType::SUBMIT, "ExpenseReport", "U.S.");
    req.context.add("amount", ValueWrapper::Int(1000));
    assert_eq!(PermissionResponse::Allow, sm.check(&req).unwrap());

    // Tom should not be able to approve report
    let mut req = PermissionRequest::new(realm.id.as_str(), tom.id.as_str(), ActionType::APPROVE, "ExpenseReport", "U.S.");
    req.context.add("amount", ValueWrapper::Int(1000));
    assert!(sm.check(&req).is_err());

    // Mike should be able to approve report
    let mut req = PermissionRequest::new(realm.id.as_str(), mike.id.as_str(), ActionType::APPROVE, "ExpenseReport", "U.S.");
    req.context.add("amount", ValueWrapper::Int(1000));
    assert_eq!(PermissionResponse::Allow, sm.check(&req).unwrap());

    sm.persistence_manager.unmap_principal_from_claim(&ctx, &tom, &submit_report).unwrap();
    sm.persistence_manager.unmap_principal_from_claim(&ctx, &mike, &approve_report).unwrap();
}

#[test]
fn test_feature_flag_with_geo_fencing() {
    // Initialize context and repository
    let ctx = SecurityContext::new("0".into(), "0".into());
    let mut pm = PersistenceManager::new();
    pm.clear();
    // Bootstrapping dependent data

    // Creating security realm
    let realm = pm.new_realm_with(&ctx, "ada").unwrap();

    // Creating organization
    let org = pm.new_org_with(&ctx, "ada").unwrap();

    // Creating Users
    let tom = pm.new_principal_with(&ctx, &org, "tom").unwrap();
    let mike = pm.new_principal_with(&ctx, &org, "mike").unwrap();

    // Creating Roles
    let customer = pm.new_role_with(&ctx, &realm, &org, "Customer").unwrap();
    let beta_customer = pm.new_role_with_parent(&ctx, &realm, &org, &customer, "BetaCustomer").unwrap();

    // Creating Resources
    let feature = pm.new_resource_with(&ctx, &realm, "Feature").unwrap();

    // Creating claims for resources
    let view = pm.new_claim_with(&ctx, &realm, &feature, "VIEW").unwrap();

    // Mapping Principals and Claims to Roles
    pm.map_principal_to_role(&ctx, &tom, &customer).unwrap();
    pm.map_principal_to_role(&ctx, &mike, &beta_customer).unwrap();

    // Map claims to roles as follows:
    pm.map_role_to_claim(&ctx, &customer, &view, "UI::Flag::BasicReport", r#"geo_distance_km(customer_lat, customer_lon, 47.620422, -122.349358) < 100"#).unwrap();
    pm.map_role_to_claim(&ctx, &beta_customer, &view, "UI::Flag::AdvancedReport", r#"geo_distance_km(customer_lat, customer_lon, 47.620422, -122.349358) < 200"#).unwrap();

    let mut sm = SecurityManager::with_functions(pm, geo_functions());

    // Tom should be able to view basic report if he lives close to Seattle
    let mut req = PermissionRequest::new(realm.id.as_str(), tom.id.as_str(), ActionType::VIEW, "Feature", "UI::Flag::BasicReport");
    req.context.add("customer_lat", ValueWrapper::Float((46.879967f64).to_bits()));
    req.context.add("customer_lon", ValueWrapper::Float((-121.726906f64).to_bits()));
    assert_eq!(PermissionResponse::Allow, sm.check(&req).unwrap());

    // Tom should not be able to view basic report if he lives far from Seattle
    let mut req = PermissionRequest::new(realm.id.as_str(), tom.id.as_str(), ActionType::VIEW, "Feature", "UI::Flag::BasicReport");
    req.context.add("customer_lat", ValueWrapper::Float((37.3230f64).to_bits()));
    req.context.add("customer_lon", ValueWrapper::Float((-122.0322f64).to_bits()));
    assert!(sm.check(&req).is_err());

    // Tom should not be able to view advanced report
    let mut req = PermissionRequest::new(realm.id.as_str(), tom.id.as_str(), ActionType::VIEW, "Feature", "UI::Flag::AdvancedReport");
    req.context.add("customer_lat", ValueWrapper::Float((46.879967f64).to_bits()));
    req.context.add("customer_lon", ValueWrapper::Float((-121.726906f64).to_bits()));
    assert!(sm.check(&req).is_err());

    // Mike should be able to view advanced report
    let mut req = PermissionRequest::new(realm.id.as_str(), mike.id.as_str(), ActionType::VIEW, "Feature", "UI::Flag::AdvancedReport");
    req.context.add("customer_lat", ValueWrapper::Float((46.879967f64).to_bits()));
    req.context.add("customer_lon", ValueWrapper::Float((-121.726906f64).to_bits()));
    assert_eq!(PermissionResponse::Allow, sm.check(&req).unwrap());

    // Mike should not be able to view advanced report if he lives far from Seattle
    let mut req = PermissionRequest::new(realm.id.as_str(), mike.id.as_str(), ActionType::VIEW, "Feature", "UI::Flag::AdvancedReport");
    req.context.add("customer_lat", ValueWrapper::Float((37.3230f64).to_bits()));
    req.context.add("customer_lon", ValueWrapper::Float((-122.0322f64).to_bits()));
    assert!(sm.check(&req).is_err());
}

#[test]
fn test_data_protection() {
    // Initialize context and repository
    let ctx = SecurityContext::new("0".into(), "0".into());
    let mut pm = PersistenceManager::new();
    pm.clear();
    // Bootstrapping dependent data

    // Creating security realm
    let realm = pm.new_realm_with(&ctx, "dada").unwrap();

    // Creating organization
    let org = pm.new_org_with(&ctx, "dada").unwrap();

    // Creating Users
    let tom = pm.new_principal_with(&ctx, &org, "tom").unwrap();
    let mike = pm.new_principal_with(&ctx, &org, "mike").unwrap();

    // Creating Roles
    let customer = pm.new_role_with(&ctx, &realm, &org, "Customer").unwrap();
    let beta_customer = pm.new_role_with_parent(&ctx, &realm, &org, &customer, "BetaCustomer").unwrap();

    // Creating Resources
    let data = pm.new_resource_with(&ctx, &realm, "Data").unwrap();

    // Creating claims for resources
    let view = pm.new_claim_with(&ctx, &realm, &data, "VIEW").unwrap();

    // Mapping Principals and Claims to Roles
    pm.map_principal_to_role(&ctx, &tom, &customer).unwrap();
    pm.map_principal_to_role(&ctx, &mike, &beta_customer).unwrap();

    // Map claims to roles as follows:
    pm.map_role_to_claim(&ctx, &customer, &view, "Report::Summary", "").unwrap();
    pm.map_role_to_claim(&ctx, &beta_customer, &view, "Report::Details", "").unwrap();

    let mut sm = SecurityManager::new(pm);

    // Tom should be able to view summary
    let req = PermissionRequest::new(realm.id.as_str(), tom.id.as_str(), ActionType::VIEW, "Data", "Report::Summary");
    assert_eq!(PermissionResponse::Allow, sm.check(&req).unwrap());

    // Tom should not be able to view details
    let req = PermissionRequest::new(realm.id.as_str(), tom.id.as_str(), ActionType::VIEW, "Data", "Report::Details");
    assert!(sm.check(&req).is_err());

    // Mike should be able to view details
    let req = PermissionRequest::new(realm.id.as_str(), mike.id.as_str(), ActionType::VIEW, "Data", "Report::Details");
    assert_eq!(PermissionResponse::Allow, sm.check(&req).unwrap());
}

#[test]
fn test_license_policy() {
    // Initialize context and repository
    let ctx = SecurityContext::new("0".into(), "0".into());
    let mut pm = PersistenceManager::new();
    pm.clear();
    // Bootstrapping dependent data

    // Creating security realm
    let realm = pm.new_realm_with(&ctx, "curie").unwrap();

    // Creating organization
    let freemium_org = pm.new_org_with(&ctx, "Freeloader").unwrap();
    let paid_org = pm.new_org_with(&ctx, "Moneymaker").unwrap();

    // Create license policies
    let freemium_policy = pm.new_license_policy(&ctx, &freemium_org).unwrap();
    let paid_policy = pm.new_license_policy(&ctx, &paid_org).unwrap();

    // Creating Users
    let freemium_frank = pm.new_principal_with(&ctx, &freemium_org, "frank").unwrap();
    let money_matt = pm.new_principal_with(&ctx, &paid_org, "matt").unwrap();

    // Creating Roles
    let customer = pm.new_role_with(&ctx, &realm, &freemium_org, "Customer").unwrap();
    let paid_customer = pm.new_role_with(&ctx, &realm, &paid_org, "PaidCustomer").unwrap();

    // Creating Resources
    let feature = pm.new_resource_with(&ctx, &realm, "Feature").unwrap();

    // Creating claims for resources
    let view = pm.new_claim_with(&ctx, &realm, &feature, "VIEW").unwrap();

    // Mapping Principals and Claims to Roles
    pm.map_principal_to_role(&ctx, &freemium_frank, &customer).unwrap();
    pm.map_principal_to_role(&ctx, &money_matt, &customer).unwrap();
    pm.map_principal_to_role(&ctx, &money_matt, &paid_customer).unwrap();

    // Map claims to policies as follows:
    pm.map_license_policy_to_claim(&ctx, &freemium_policy, &view, "UI::Flag::BasicReport", "").unwrap();
    pm.map_license_policy_to_claim(&ctx, &paid_policy, &view, "UI::Flag::AdvancedReport", "").unwrap();

    // Map claims to roles as follows:
    pm.map_role_to_claim(&ctx, &customer, &view, "UI::Flag::BasicReport", "").unwrap();
    pm.map_role_to_claim(&ctx, &paid_customer, &view, "UI::Flag::AdvancedReport", "").unwrap();

    let mut sm = SecurityManager::new(pm);

    // Frank should be able to view basic report
    let req = PermissionRequest::new(realm.id.as_str(), freemium_frank.id.as_str(), ActionType::VIEW, "Feature", "UI::Flag::BasicReport");
    assert_eq!(PermissionResponse::Allow, sm.check(&req).unwrap());

    // Frank should not be able to view advanced report
    let req = PermissionRequest::new(realm.id.as_str(), freemium_frank.id.as_str(), ActionType::VIEW, "Feature", "UI::Flag::AdvancedReport");
    assert!(sm.check(&req).is_err());

    // Matt should be able to view advanced report
    let req = PermissionRequest::new(realm.id.as_str(), money_matt.id.as_str(), ActionType::VIEW, "Feature", "UI::Flag::AdvancedReport");
    assert_eq!(PermissionResponse::Allow, sm.check(&req).unwrap());

    sm.persistence_manager.unmap_license_policy_from_claim(&ctx, &freemium_policy, &view).unwrap();
    sm.persistence_manager.unmap_license_policy_from_claim(&ctx, &paid_policy, &view).unwrap();
}

#[test]
fn test_app_report() {
    // Initialize context and repository
    let ctx = SecurityContext::new("0".into(), "0".into());
    let mut pm = PersistenceManager::new();
    pm.clear();
    // Bootstrapping dependent data

    // Creating security realm
    let realm = pm.new_realm_with(&ctx, "SeeEye").unwrap();

    // Creating organization
    let org = pm.new_org_with(&ctx, "SeeEye").unwrap();

    // Create license policies
    let policy = pm.new_license_policy(&ctx, &org).unwrap();

    // Creating Users
    let dave = pm.new_principal_with(&ctx, &org, "dave").unwrap();
    let qari = pm.new_principal_with(&ctx, &org, "qari").unwrap();
    let ali = pm.new_principal_with(&ctx, &org, "ali").unwrap();

    // Creating Roles
    let developer = pm.new_role_with(&ctx, &realm, &org, "Developer").unwrap();
    let qa = pm.new_role_with(&ctx, &realm, &org, "QA").unwrap();
    let admin = pm.new_role_with_parent(&ctx, &realm, &org, &developer, "Admin").unwrap();

    // Creating Resources
    let app = pm.new_resource_with(&ctx, &realm, "App").unwrap();

    // Creating claims for resources
    let submit_view = pm.new_claim_with(&ctx, &realm, &app, "(SUBMIT|VIEW)").unwrap();
    let view = pm.new_claim_with(&ctx, &realm, &app, "VIEW").unwrap();
    let create_delete = pm.new_claim_with(&ctx, &realm, &app, "(CREATE|DELETE)").unwrap();

    // Mapping Principals and Claims to Roles
    pm.map_principal_to_role(&ctx, &dave, &developer).unwrap();
    pm.map_principal_to_role(&ctx, &qari, &qa).unwrap();
    pm.map_principal_to_role(&ctx, &ali, &admin).unwrap();

    // Map claims to policies as follows:
    pm.map_license_policy_to_claim(&ctx, &policy, &submit_view, "com.xyz.app", "appSize < 1000").unwrap();
    pm.map_license_policy_to_claim(&ctx, &policy, &view, "com.xyz.app", "appSize < 1000").unwrap();
    pm.map_license_policy_to_claim(&ctx, &policy, &create_delete, "com.xyz.app", "").unwrap();

    // Map claims to roles as follows:
    pm.map_role_to_claim(&ctx, &developer, &submit_view, "com.xyz.app", "appSize < 1000").unwrap();
    pm.map_role_to_claim(&ctx, &qa, &view, "com.xyz.app", "appSize < 1000").unwrap();
    pm.map_role_to_claim(&ctx, &admin, &create_delete, "com.xyz.app", "").unwrap();

    let mut sm = SecurityManager::new(pm);

    // Dave should be able to submit app
    let mut req = PermissionRequest::new(realm.id.as_str(), dave.id.as_str(), ActionType::SUBMIT, "App", "com.xyz.app");
    req.context.add("appSize", ValueWrapper::Int(500));
    assert_eq!(PermissionResponse::Allow, sm.check(&req).unwrap());

    // Qari should be able to view app
    let mut req = PermissionRequest::new(realm.id.as_str(), qari.id.as_str(), ActionType::VIEW, "App", "com.xyz.app");
    req.context.add("appSize", ValueWrapper::Int(500));
    assert_eq!(PermissionResponse::Allow, sm.check(&req).unwrap());

    // Qari should not be able to create app
    let mut req = PermissionRequest::new(realm.id.as_str(), qari.id.as_str(), ActionType::CREATE, "App", "com.xyz.app");
    req.context.add("appSize", ValueWrapper::Int(500));
    assert!(sm.check(&req).is_err());

    // Ali should be able to create app
    let mut req = PermissionRequest::new(realm.id.as_str(), ali.id.as_str(), ActionType::CREATE, "App", "com.xyz.app");
    req.context.add("appSize", ValueWrapper::Int(500));
    assert_eq!(PermissionResponse::Allow, sm.check(&req).unwrap());

    // Ali should be able to submit app
    let mut req = PermissionRequest::new(realm.id.as_str(), ali.id.as_str(), ActionType::SUBMIT, "App", "com.xyz.app");
    req.context.add("appSize", ValueWrapper::Int(500));
    assert_eq!(PermissionResponse::Allow, sm.check(&req).unwrap());

    // Ali should not be able to submit app with large app
    let mut req = PermissionRequest::new(realm.id.as_str(), ali.id.as_str(), ActionType::SUBMIT, "App", "com.xyz.app");
    req.context.add("appSize", ValueWrapper::Int(5000));
    assert!(sm.check(&req).is_err());
}

#[test]
fn test_project() {
    // Initialize context and repository
    let ctx = SecurityContext::new("0".into(), "0".into());
    let mut pm = PersistenceManager::new();
    pm.clear();
    // Bootstrapping dependent data

    // Creating security realm
    let realm = pm.new_realm_with(&ctx, "JobGrid").unwrap();

    // Creating organization
    let abc_corp = pm.new_org_with(&ctx, "ABC").unwrap();
    let xyz_corp = pm.new_org_with(&ctx, "XYZ").unwrap();

    // Create license policies
    let abc_policy = pm.new_license_policy(&ctx, &abc_corp).unwrap();
    let xyz_policy = pm.new_license_policy(&ctx, &xyz_corp).unwrap();

    // Creating Users
    let abc_dave = pm.new_principal_with(&ctx, &abc_corp, "dave").unwrap();
    let abc_ali = pm.new_principal_with(&ctx, &abc_corp, "ali").unwrap();

    let xyz_dan = pm.new_principal_with(&ctx, &xyz_corp, "dan").unwrap();
    let xyz_ann = pm.new_principal_with(&ctx, &xyz_corp, "ann").unwrap();

    // Creating Roles
    let abc_developer = pm.new_role_with(&ctx, &realm, &abc_corp, "Developer").unwrap();
    let abc_admin = pm.new_role_with_parent(&ctx, &realm, &abc_corp, &abc_developer, "Admin").unwrap();

    let xyz_developer = pm.new_role_with(&ctx, &realm, &xyz_corp, "Developer").unwrap();
    let xyz_admin = pm.new_role_with_parent(&ctx, &realm, &xyz_corp, &xyz_developer, "Admin").unwrap();

    // Creating Resources
    let project = pm.new_resource_with(&ctx, &realm, "Project").unwrap();
    let job = pm.new_resource_with(&ctx, &realm, "Job").unwrap();

    // Creating claims for resources
    let project_create_delete = pm.new_claim_with(&ctx, &realm, &project, "(CREATE|DELETE)").unwrap();
    let project_view = pm.new_claim_with(&ctx, &realm, &project, "VIEW").unwrap();
    let job_view_submit = pm.new_claim_with(&ctx, &realm, &job, "(VIEW|SUBMIT)").unwrap();

    // Mapping Principals and Claims to Roles
    pm.map_principal_to_role(&ctx, &abc_dave, &abc_developer).unwrap();
    pm.map_principal_to_role(&ctx, &abc_ali, &abc_admin).unwrap();

    pm.map_principal_to_role(&ctx, &xyz_dan, &xyz_developer).unwrap();
    pm.map_principal_to_role(&ctx, &xyz_ann, &xyz_admin).unwrap();

    // Map claims to policies as follows:
    pm.map_license_policy_to_claim(&ctx, &abc_policy, &project_create_delete, "com.abc.app", "").unwrap();
    pm.map_license_policy_to_claim(&ctx, &abc_policy, &project_view, "com.abc.app", "").unwrap();
    pm.map_license_policy_to_claim(&ctx, &abc_policy, &job_view_submit, "com.abc.app", "appSize < 1000").unwrap();

    pm.map_license_policy_to_claim(&ctx, &xyz_policy, &project_create_delete, "com.xyz.app", "").unwrap();
    pm.map_license_policy_to_claim(&ctx, &xyz_policy, &project_view, "com.xyz.app", "").unwrap();
    pm.map_license_policy_to_claim(&ctx, &xyz_policy, &job_view_submit, "com.xyz.app", "appSize < 1000").unwrap();

    // Map claims to roles as follows:
    pm.map_role_to_claim(&ctx, &abc_admin, &project_create_delete, "com.abc.app", "").unwrap();
    pm.map_role_to_claim(&ctx, &abc_developer, &project_view, "com.abc.app", "").unwrap();
    pm.map_role_to_claim(&ctx, &abc_developer, &job_view_submit, "com.abc.app", "appSize < 1000").unwrap();

    pm.map_role_to_claim(&ctx, &xyz_admin, &project_create_delete, "com.xyz.app", "").unwrap();
    pm.map_role_to_claim(&ctx, &xyz_developer, &project_view, "com.xyz.app", "").unwrap();
    pm.map_role_to_claim(&ctx, &xyz_developer, &job_view_submit, "com.xyz.app", "appSize < 1000").unwrap();

    let mut sm = SecurityManager::new(pm);

    // Ali for ABC should create project
    let mut req = PermissionRequest::new(realm.id.as_str(), abc_ali.id.as_str(), ActionType::CREATE, "Project", "com.abc.app");
    req.context.add("appSize", ValueWrapper::Int(500));
    assert!(sm.check(&req).is_ok());

    // Dave for ABC should be able to submit job
    let mut req = PermissionRequest::new(realm.id.as_str(), abc_dave.id.as_str(), ActionType::SUBMIT, "Job", "com.abc.app");
    req.context.add("appSize", ValueWrapper::Int(500));
    assert!(sm.check(&req).is_ok());

}

#[test]
fn test_quota_limits() {
    // Initialize context and repository
    let ctx = SecurityContext::new("0".into(), "0".into());
    let mut pm = PersistenceManager::new();
    pm.clear();
    // Bootstrapping dependent data

    // Creating security realm
    let realm = pm.new_realm_with(&ctx, "JobGrid").unwrap();

    // Creating organization
    let abc_corp = pm.new_org_with(&ctx, "ABC").unwrap();
    let xyz_corp = pm.new_org_with(&ctx, "XYZ").unwrap();

    // Create license policies
    let _abc_policy = pm.new_license_policy(&ctx, &abc_corp).unwrap();
    let _xyz_policy = pm.new_license_policy(&ctx, &xyz_corp).unwrap();

    // Creating Resources
    let project = pm.new_resource_with(&ctx, &realm, "Project").unwrap();
    let job = pm.new_resource_with(&ctx, &realm, "Job").unwrap();

    // Creating Users
    let abc_dave = pm.new_principal_with(&ctx, &abc_corp, "dave").unwrap();
    let xyz_dan = pm.new_principal_with(&ctx, &xyz_corp, "dan").unwrap();

    // Set Resource Quota
    assert!(pm.new_resource_quota_with(&ctx, &project, &abc_dave, "ABC Project", 1).is_ok());
    assert!(pm.new_resource_quota_with(&ctx, &job, &abc_dave, "ABC Jobs", 2).is_ok());

    assert!(pm.new_resource_quota_with(&ctx, &project, &xyz_dan, "XYZ Project", 2).is_ok());
    assert!(pm.new_resource_quota_with(&ctx, &job, &xyz_dan, "XYZ Jobs", 3).is_ok());

    // abc can have at most 1 project
    assert!(pm.new_resource_instance_with(&ctx, &project, &abc_dave, "ABC Project", "1", Status::COMPLETED).is_ok());
    assert!(pm.new_resource_instance_with(&ctx, &project, &abc_dave, "ABC Project", "2", Status::COMPLETED).is_err());

    // abc can have at most 2 jobs
    assert!(pm.new_resource_instance_with(&ctx, &job, &abc_dave, "ABC Jobs", "1", Status::COMPLETED).is_ok());
    assert!(pm.new_resource_instance_with(&ctx, &job, &abc_dave, "ABC Jobs", "2", Status::COMPLETED).is_ok());
    assert!(pm.new_resource_instance_with(&ctx, &job, &abc_dave, "ABC Jobs", "3", Status::COMPLETED).is_err());

    // xyz can have at most 2 project
    assert!(pm.new_resource_instance_with(&ctx, &project, &xyz_dan, "XYZ Project", "1", Status::COMPLETED).is_ok());
    assert!(pm.new_resource_instance_with(&ctx, &project, &xyz_dan, "XYZ Project", "2", Status::COMPLETED).is_ok());
    assert!(pm.new_resource_instance_with(&ctx, &project, &xyz_dan, "XYZ Project", "3", Status::COMPLETED).is_err());

    // xyz can have at most 3 jobs
    assert!(pm.new_resource_instance_with(&ctx, &job, &xyz_dan, "XYZ Jobs", "1", Status::COMPLETED).is_ok());
    assert!(pm.new_resource_instance_with(&ctx, &job, &xyz_dan, "XYZ Jobs", "2", Status::COMPLETED).is_ok());
    assert!(pm.new_resource_instance_with(&ctx, &job, &xyz_dan, "XYZ Jobs", "3", Status::COMPLETED).is_ok());
    assert!(pm.new_resource_instance_with(&ctx, &job, &xyz_dan, "XYZ Jobs", "4", Status::COMPLETED).is_err());
}

#[test]
fn manager_test_evaluate() {
    // Initialize context and repository
    let ctx = SecurityContext::new("0".into(), "0".into());
    let mut pm = PersistenceManager::new();
    pm.clear();
    // Bootstrapping dependent data

    // Creating security realm
    let realm = pm.new_realm_with(&ctx, "banking").unwrap();

    // Creating organization
    let org = pm.new_org_with(&ctx, "bank-of-flakes").unwrap();

    // Creating Users
    let tom = pm.new_principal_with(&ctx, &org, "tom").unwrap();

    // Creating Roles
    let employee = pm.new_role_with(&ctx, &realm, &org, "Employee").unwrap();
    let teller = pm.new_role_with_parent(&ctx, &realm, &org, &employee, "Teller").unwrap();

    // Creating Resources
    let deposit_account = pm.new_resource_with(&ctx, &realm, "DepositAccount").unwrap();

    // Creating claims for resources
    let _cd_deposit = pm.new_claim_with(&ctx, &realm, &deposit_account, "(CREATE|DELETE)").unwrap();
    let ru_deposit = pm.new_claim_with(&ctx, &realm, &deposit_account, "(READ|UPDATE)").unwrap();

    // Mapping Principals and Claims to Roles
    pm.map_principal_to_role(&ctx, &tom, &teller).unwrap();

    // Map claims to roles as follows:
    pm.map_role_to_claim(&ctx, &teller, &ru_deposit, "U.S.", r#"employeeRegion == "Midwest""#).unwrap();

    let mut sm = SecurityManager::new(pm);
    let mut req = PermissionRequest::new(realm.id.as_str(), tom.id.as_str(), ActionType::READ, "DepositAccount", "U.S.");
    req.context.add("employeeRegion", ValueWrapper::String("Midwest".to_string()));
    assert_eq!(PermissionResponse::Allow, sm.check(&req).unwrap());
}
