use plexrbac::common::{ActionType, RbacError, SecurityContext};
use plexrbac::domain::models::{
    Claim, Group, LicensePolicy, Organization, Principal, Resource, ResourceInstance, ResourceQuota,
    Role, SecurityRealm,
};
use plexrbac::persistence::manager::PersistenceManager;
use plexrbac::security::manager::SecurityManager;
use plexrbac::security::request::PermissionRequest;
use plexrbac::security::response::PermissionResponse;
use plexrbac::service::common::{error_status, group_exists, resource_exists, role_exists, AssociationForm};
use plexrbac::service::{organization, realm, security};
use plexrbac::utils::clock::FAR_FUTURE;

fn form(scope: &str, constraints: &str, effective_at: &str, expired_at: &str) -> AssociationForm {
    AssociationForm {
        scope: scope.to_string(),
        constraints: constraints.to_string(),
        effective_at: effective_at.to_string(),
        expired_at: expired_at.to_string(),
    }
}

#[test]
fn test_realm_operations() {
    let ctx = SecurityContext::new("", "admin");
    let mut pm = PersistenceManager::new();
    let made = realm::create_realm(&mut pm, &ctx, SecurityRealm::new("banking", None)).unwrap();
    assert_eq!("banking", made.id);
    let changed = realm::update_realm(
        &mut pm,
        &ctx,
        "banking".to_string(),
        SecurityRealm::new("ignored", Some("money".to_string())),
    )
    .unwrap();
    assert_eq!("banking", changed.id);
    assert_eq!(Some("money".to_string()), realm::get_realm(&pm, &ctx, "banking").unwrap().description);
    assert_eq!(1, realm::all_realms(&pm, &ctx).len());
    match realm::get_realm(&pm, &ctx, "other") {
        Err(e) => assert_eq!(404, error_status(e).code),
        other => panic!("unexpected {:?}", other),
    }
    match realm::create_realm(&mut pm, &ctx, SecurityRealm::new("banking", None)) {
        Err(e) => assert_eq!(409, error_status(e).code),
        other => panic!("unexpected {:?}", other),
    }
    assert_eq!(Ok(1), realm::delete_realm(&mut pm, &ctx, "banking"));
    assert_eq!(0, realm::all_realms(&pm, &ctx).len());
}

#[test]
fn test_resource_operations_are_held_to_the_realm() {
    let ctx = SecurityContext::new("banking", "admin");
    let mut pm = PersistenceManager::new();
    let account =
        realm::create_resource(&mut pm, &ctx, "banking".to_string(), Resource::new("", "elsewhere", "Account", None, None))
            .unwrap();
    assert_eq!("banking", account.realm_id);
    assert!(resource_exists(&pm, &ctx, "banking", account.id.as_str()));
    assert!(!resource_exists(&pm, &ctx, "elsewhere", account.id.as_str()));
    assert_eq!(1, realm::get_resources_by_realm(&pm, &ctx, "banking").len());
    assert!(realm::get_resource(&pm, &ctx, "elsewhere", account.id.as_str()).is_err());
    let mut change = Resource::new("", "", "Account", Some("d".to_string()), None);
    change.allowable_actions = Some("READ".to_string());
    let changed = realm::update_resource(&mut pm, &ctx, "banking".to_string(), account.id.clone(), change).unwrap();
    assert_eq!(Some("READ".to_string()), changed.allowable_actions);
    assert_eq!(account.id, changed.id);

    // claims
    let claim = realm::create_claim(
        &mut pm,
        &ctx,
        "banking".to_string(),
        account.id.clone(),
        Claim::new("", "x", "y", "READ", "Allow", None),
    )
    .unwrap();
    assert_eq!("banking", claim.realm_id);
    assert_eq!(account.id, claim.resource_id);
    match realm::create_claim(
        &mut pm,
        &ctx,
        "banking".to_string(),
        "nothing".to_string(),
        Claim::new("", "x", "y", "READ", "Allow", None),
    ) {
        Err(RbacError::NotFound(_)) => {},
        other => panic!("unexpected {:?}", other),
    }
    assert_eq!(1, realm::get_claims(&pm, &ctx, "banking", account.id.as_str()).len());
    assert_eq!(0, realm::get_claims(&pm, &ctx, "banking", "nothing").len());
    assert_eq!(1, realm::get_realm_claims(&pm, &ctx, "banking").len());
    assert_eq!(Ok(claim.clone()), realm::get_claim(&pm, &ctx, "banking", account.id.as_str(), claim.id.as_str()));

    // grants
    let window = form("U.S.", "a < 1", "2019-07-05T23:56:04+0000", "");
    assert_eq!(
        Ok(1),
        realm::add_role_to_claim(&mut pm, &ctx, "banking", account.id.as_str(), claim.id.as_str(), "role", &window)
    );
    let row = &pm.claim_claimable_repository.table.rows[0];
    assert_eq!("Role", row.claimable_type);
    assert_eq!("role", row.claimable_id);
    assert_eq!("U.S.", row.scope);
    assert_eq!("a < 1", row.claim_constraints);
    assert_eq!(1562370964, row.effective_at);
    assert_eq!(FAR_FUTURE, row.expired_at);
    match realm::add_principal_to_claim(
        &mut pm,
        &ctx,
        "banking",
        account.id.as_str(),
        claim.id.as_str(),
        "p",
        &form("", "", "yesterday", ""),
    ) {
        Err(RbacError::Custom(_)) => {},
        other => panic!("unexpected {:?}", other),
    }
    match realm::add_license_to_claim(&mut pm, &ctx, "banking", "nothing", claim.id.as_str(), "l", &window) {
        Err(RbacError::NotFound(_)) => {},
        other => panic!("unexpected {:?}", other),
    }
    assert_eq!(Ok(1), realm::add_license_to_claim(&mut pm, &ctx, "banking", account.id.as_str(), claim.id.as_str(), "l", &window));
    assert_eq!(Ok(1), realm::add_principal_to_claim(&mut pm, &ctx, "banking", account.id.as_str(), claim.id.as_str(), "p", &window));
    assert_eq!(3, pm.claim_claimable_repository.table.len());
    assert_eq!(Ok(1), realm::delete_role_from_claim(&mut pm, &ctx, "banking", account.id.as_str(), claim.id.as_str(), "role"));
    assert_eq!(Ok(1), realm::delete_license_from_claim(&mut pm, &ctx, "banking", account.id.as_str(), claim.id.as_str(), "l"));
    assert_eq!(Ok(1), realm::delete_principal_from_claim(&mut pm, &ctx, "banking", account.id.as_str(), claim.id.as_str(), "p"));
    assert_eq!(Ok(0), realm::delete_principal_from_claim(&mut pm, &ctx, "banking", account.id.as_str(), claim.id.as_str(), "p"));
    assert!(realm::delete_principal_from_claim(&mut pm, &ctx, "banking", "nothing", claim.id.as_str(), "p").is_err());

    let mut change = claim.clone();
    change.action = "(READ|UPDATE)".to_string();
    let changed =
        realm::update_claim(&mut pm, &ctx, "banking".to_string(), account.id.clone(), claim.id.clone(), change).unwrap();
    assert_eq!("(READ|UPDATE)", changed.action);
    assert_eq!(Ok(1), realm::delete_claim(&mut pm, &ctx, "banking", account.id.as_str(), claim.id.as_str()));
    assert_eq!(Ok(1), realm::delete_resource(&mut pm, &ctx, "banking", account.id.as_str()));
    assert!(pm.is_wf());
}

#[test]
fn test_instances_and_quotas_through_the_realm() {
    let mut pm = PersistenceManager::new();
    let admin = SecurityContext::new("jobs", "admin");
    let org = organization::create_org(&mut pm, &admin, Organization::new("", None, "ABC", "", None)).unwrap();
    let dave = organization::create_principal(&mut pm, &admin, org.id.clone(), Principal::new("", "", "dave", None)).unwrap();
    assert_eq!(org.id, dave.organization_id);
    let policy = organization::create_license(
        &mut pm,
        &admin,
        org.id.clone(),
        LicensePolicy::new("", "", "default", None, 0, FAR_FUTURE),
    )
    .unwrap();
    assert_eq!(1, organization::get_licenses_by_org(&pm, &admin, org.id.as_str()).len());
    assert!(organization::create_license(&mut pm, &admin, org.id.clone(), LicensePolicy::new("", "", "second", None, 0, FAR_FUTURE)).is_err());
    let job = realm::create_resource(&mut pm, &admin, "jobs".to_string(), Resource::new("", "", "Job", None, None)).unwrap();
    let quota = realm::create_quota(
        &mut pm,
        &admin,
        "jobs",
        job.id.clone(),
        ResourceQuota::new("", "", policy.id.as_str(), "Jobs", 1, 0, FAR_FUTURE),
    )
    .unwrap();
    assert_eq!(job.id, quota.resource_id);
    assert_eq!(1, realm::get_quotas(&pm, &admin, "jobs", job.id.as_str()).len());
    assert_eq!(0, realm::get_quotas(&pm, &admin, "other", job.id.as_str()).len());
    assert_eq!(Ok(quota.clone()), realm::get_quota(&pm, &admin, "jobs", job.id.as_str(), quota.id.as_str()));

    // the instance is created for the caller
    let caller = SecurityContext::new("jobs", dave.id.as_str());
    let first = realm::create_instance(
        &mut pm,
        &caller,
        "jobs",
        job.id.clone(),
        ResourceInstance::new("", "", "", "Jobs", "1", "COMPLETED", None),
    )
    .unwrap();
    assert_eq!(job.id, first.resource_id);
    assert_eq!(policy.id, first.license_policy_id);
    match realm::create_instance(&mut pm, &caller, "jobs", job.id.clone(), ResourceInstance::new("", "", "", "Jobs", "2", "COMPLETED", None)) {
        Err(e) => {
            assert!(matches!(e, RbacError::QuotaExceeded(_)));
            assert_eq!(409, error_status(e).code);
        },
        other => panic!("unexpected {:?}", other),
    }
    match realm::create_instance(&mut pm, &caller, "jobs", "nothing".to_string(), ResourceInstance::new("", "", "", "Jobs", "2", "COMPLETED", None)) {
        Err(RbacError::NotFound(_)) => {},
        other => panic!("unexpected {:?}", other),
    }
    assert!(realm::create_instance(&mut pm, &admin, "jobs", job.id.clone(), ResourceInstance::new("", "", "", "Jobs", "2", "COMPLETED", None)).is_err());
    assert_eq!(1, realm::get_instances(&pm, &admin, "jobs", job.id.as_str()).len());
    let mut change = first.clone();
    change.status = "FAILED".to_string();
    let changed = realm::update_instance(&mut pm, &admin, "jobs", job.id.clone(), first.id.clone(), change).unwrap();
    assert_eq!("FAILED", changed.status);
    assert_eq!(Ok(changed), realm::get_instance(&pm, &admin, "jobs", job.id.as_str(), first.id.as_str()));
    // with the first no longer completed there is room again
    assert!(realm::create_instance(&mut pm, &caller, "jobs", job.id.clone(), ResourceInstance::new("", "", "", "Jobs", "2", "COMPLETED", None)).is_ok());
    let mut wider = quota.clone();
    wider.max_value = 5;
    assert_eq!(5, realm::update_quota(&mut pm, &admin, "jobs", job.id.clone(), quota.id.clone(), wider).unwrap().max_value);
    assert_eq!(Ok(1), realm::delete_instance(&mut pm, &admin, "jobs", job.id.as_str(), first.id.as_str()));
    assert_eq!(Ok(1), realm::delete_quota(&mut pm, &admin, "jobs", job.id.as_str(), quota.id.as_str()));
    assert!(realm::delete_quota(&mut pm, &admin, "other", job.id.as_str(), quota.id.as_str()).is_err());
}

#[test]
fn test_organization_operations() {
    let ctx = SecurityContext::new("r", "admin");
    let mut pm = PersistenceManager::new();
    let org = organization::create_org(&mut pm, &ctx, Organization::new("", None, "acme", "u", None)).unwrap();
    let changed = organization::update_org(&mut pm, &ctx, org.id.clone(), Organization::new("", None, "x", "http://acme", None)).unwrap();
    assert_eq!("acme", changed.name);
    assert_eq!("http://acme", changed.url);
    assert_eq!(1, organization::all_orgs(&pm, &ctx).len());
    assert_eq!(Ok(changed), organization::get_org(&pm, &ctx, org.id.as_str()));

    let group = organization::create_group(&mut pm, &ctx, org.id.clone(), Group::new("", "", "staff", None, None)).unwrap();
    let role = organization::create_role(&mut pm, &ctx, org.id.clone(), Role::new("", "r", "", "Teller", None, None)).unwrap();
    let ann = organization::create_principal(&mut pm, &ctx, org.id.clone(), Principal::new("", "", "ann", None)).unwrap();
    assert_eq!(org.id, group.organization_id);
    assert_eq!(org.id, role.organization_id);
    assert!(group_exists(&pm, &ctx, org.id.as_str(), group.id.as_str()));
    assert!(!group_exists(&pm, &ctx, "other", group.id.as_str()));
    assert!(role_exists(&pm, &ctx, org.id.as_str(), role.id.as_str()));
    assert!(!role_exists(&pm, &ctx, org.id.as_str(), group.id.as_str()));
    assert_eq!(1, organization::get_groups_by_org(&pm, &ctx, org.id.as_str()).len());
    assert_eq!(1, organization::get_roles_by_org(&pm, &ctx, org.id.as_str()).len());
    assert_eq!(1, organization::get_principals_by_org(&pm, &ctx, org.id.as_str()).len());
    assert_eq!(Ok(group.clone()), organization::get_group(&pm, &ctx, org.id.as_str(), group.id.as_str()));
    assert_eq!(Ok(role.clone()), organization::get_role(&pm, &ctx, org.id.as_str(), role.id.as_str()));
    assert_eq!(Ok(ann.clone()), organization::get_principal(&pm, &ctx, org.id.as_str(), ann.id.as_str()));
    assert!(organization::get_group(&pm, &ctx, "other", group.id.as_str()).is_err());

    assert_eq!(Ok(1), organization::add_principal_to_group(&mut pm, &ctx, org.id.as_str(), group.id.as_str(), ann.id.as_str()));
    assert!(organization::add_principal_to_group(&mut pm, &ctx, org.id.as_str(), group.id.as_str(), ann.id.as_str()).is_err());
    assert!(organization::add_principal_to_group(&mut pm, &ctx, "other", group.id.as_str(), ann.id.as_str()).is_err());
    let open = form("", "", "", "");
    assert_eq!(Ok(1), organization::add_group_to_role(&mut pm, &ctx, org.id.as_str(), role.id.as_str(), group.id.as_str(), &open));
    assert_eq!(Ok(1), organization::add_principal_to_role(&mut pm, &ctx, org.id.as_str(), role.id.as_str(), ann.id.as_str(), &open));
    assert!(organization::add_principal_to_role(&mut pm, &ctx, org.id.as_str(), "nothing", ann.id.as_str(), &open).is_err());
    let loaded = pm.get_principal(&ctx, "r", ann.id.as_str()).unwrap();
    assert_eq!(1, loaded.roles.len());
    assert_eq!(1, loaded.groups.len());
    assert_eq!(Ok(1), organization::delete_group_from_role(&mut pm, &ctx, org.id.as_str(), role.id.as_str(), group.id.as_str()));
    assert_eq!(Ok(1), organization::delete_principal_from_role(&mut pm, &ctx, org.id.as_str(), role.id.as_str(), ann.id.as_str()));
    assert_eq!(Ok(1), organization::delete_principal_from_group(&mut pm, &ctx, org.id.as_str(), group.id.as_str(), ann.id.as_str()));

    let mut below = group.clone();
    below.parent_id = Some("top".to_string());
    assert_eq!(Some("top".to_string()), organization::update_group(&mut pm, &ctx, org.id.clone(), group.id.clone(), below).unwrap().parent_id);
    let mut heir = role.clone();
    heir.parent_id = Some("Employee".to_string());
    assert_eq!(Some("Employee".to_string()), organization::update_role(&mut pm, &ctx, org.id.clone(), role.id.clone(), heir).unwrap().parent_id);
    let mut known = Principal::new("", "", "ann", Some("the first".to_string()));
    known.username = "renamed".to_string();
    let updated = organization::update_principal(&mut pm, &ctx, org.id.clone(), ann.id.clone(), known).unwrap();
    assert_eq!("ann", updated.username);
    assert_eq!(Some("the first".to_string()), updated.description);

    let policy = organization::create_license(&mut pm, &ctx, org.id.clone(), LicensePolicy::new("", "", "p", None, 0, FAR_FUTURE)).unwrap();
    let mut shorter = policy.clone();
    shorter.expired_at = 10;
    assert_eq!(10, organization::update_license(&mut pm, &ctx, org.id.clone(), policy.id.clone(), shorter).unwrap().expired_at);
    assert_eq!(0, organization::get_licenses_by_org(&pm, &ctx, org.id.as_str()).len());
    assert!(organization::get_license(&pm, &ctx, org.id.as_str(), policy.id.as_str()).is_ok());
    assert_eq!(Ok(1), organization::delete_license(&mut pm, &ctx, org.id.as_str(), policy.id.as_str()));
    assert_eq!(Ok(1), organization::delete_role(&mut pm, &ctx, org.id.as_str(), role.id.as_str()));
    assert_eq!(Ok(1), organization::delete_group(&mut pm, &ctx, org.id.as_str(), group.id.as_str()));
    assert_eq!(Ok(1), organization::delete_principal(&mut pm, &ctx, org.id.as_str(), ann.id.as_str()));
    assert_eq!(Ok(1), organization::delete_org(&mut pm, &ctx, org.id.as_str()));
    assert_eq!(Ok(0), organization::delete_org(&mut pm, &ctx, org.id.as_str()));
}

#[test]
fn test_check_is_reported_as_not_authorized() {
    let ctx = SecurityContext::new("docs", "admin");
    let mut pm = PersistenceManager::new();
    let org = pm.new_org_with(&ctx, "acme").unwrap();
    let ann = pm.new_principal_with(&ctx, &org, "ann").unwrap();
    let doc = realm::create_resource(&mut pm, &ctx, "docs".to_string(), Resource::new("", "", "Doc", None, None)).unwrap();
    let read = realm::create_claim(&mut pm, &ctx, "docs".to_string(), doc.id.clone(), Claim::new("", "", "", "READ", "Allow", None)).unwrap();
    pm.map_principal_to_claim(&ctx, &ann, &read, "", "").unwrap();
    let mut sm = SecurityManager::new(pm);
    let req = PermissionRequest::new("docs", ann.id.as_str(), ActionType::READ, "Doc", "");
    assert_eq!(Ok(PermissionResponse::Allow), security::check(&mut sm, &req));
    let req = PermissionRequest::with("docs", ann.id.as_str(), "ERASE", "Doc", "");
    match security::check(&mut sm, &req) {
        Err(status) => {
            assert_eq!(401, status.code);
            assert!(status.message.starts_with("Failed to authorize - No matching claim found"));
        },
        other => panic!("unexpected {:?}", other),
    }
    assert_eq!(
        "Failed to authorize - no",
        security::report(Err(RbacError::Security("no".to_string()))).unwrap_err().message
    );
}

#[test]
fn test_store_with_a_key_twice_is_not_well_formed() {
    let ctx = SecurityContext::new("r", "admin");
    let mut pm = PersistenceManager::new();
    assert!(pm.is_wf());
    let org = pm.new_org_with(&ctx, "acme").unwrap();
    let role = pm.new_role_with(&ctx, &SecurityRealm::new("r", None), &org, "A").unwrap();
    pm.new_role_with(&ctx, &SecurityRealm::new("r", None), &org, "B").unwrap();
    assert!(pm.is_wf());
    pm.role_repository.table.rows.push(role.clone());
    assert!(!pm.role_repository.is_wf());
    assert!(!pm.is_wf());
    pm.role_repository.table.rows.pop();
    pm.role_roleable_repository.add_principal_to_role(&ctx, "a", "b", "", 0, 1).unwrap();
    let row = pm.role_roleable_repository.table.rows[0].clone();
    pm.role_roleable_repository.table.rows.push(row);
    assert!(!pm.is_wf());
}
