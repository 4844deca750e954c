use chrono::Utc;
use plexrbac::common::{ActionType, RbacError, SecurityContext, ValueWrapper};
use plexrbac::domain::models::{Claim, ClaimResource, LicensePolicy, Resource, Role};
use plexrbac::persistence::manager::PersistenceManager;
use plexrbac::security::manager::{decide, Finding, SecurityManager};
use plexrbac::security::request::PermissionRequest;
use plexrbac::security::response::PermissionResponse;
use plexrbac::utils::clock::FAR_FUTURE;

fn candidate(action: &str, effect: &str, constraints: &str, resource_name: &str) -> ClaimResource {
    ClaimResource::new(
        Claim::new("c", "realm", "r", action, effect, None),
        "scope".to_string(),
        constraints.to_string(),
        Resource::new("r", "realm", resource_name, None, None),
    )
}

#[test]
fn test_response_from_effect() {
    assert_eq!(PermissionResponse::Allow, PermissionResponse::from("Allow".to_string()));
    assert_eq!(PermissionResponse::Deny, PermissionResponse::from("Deny".to_string()));
    assert_eq!(PermissionResponse::Deny, PermissionResponse::from("allow".to_string()));
    assert_eq!(PermissionResponse::Deny, PermissionResponse::from("".to_string()));
}

#[test]
fn test_claim_effect_defaults_to_allow() {
    let mut claim = Claim::new("c", "realm", "r", "READ", "", None);
    assert_eq!("Allow", claim.effect());
    claim.effect = None;
    assert_eq!("Allow", claim.effect());
    claim.effect = Some("Deny".to_string());
    assert_eq!("Deny", claim.effect());
}

#[test]
fn test_decide_first_decisive_finding_wins() {
    let candidates = vec![
        candidate("READ", "Allow", "x", "Doc"),
        candidate("READ", "Deny", "", "Doc"),
        candidate("READ", "Allow", "", "Doc"),
    ];
    let findings = vec![Finding::Fails, Finding::Unconditional, Finding::Unconditional];
    assert_eq!(Ok(PermissionResponse::Deny), decide(&candidates, &findings));
    let findings = vec![Finding::Holds, Finding::Unconditional, Finding::Unconditional];
    assert_eq!(Ok(PermissionResponse::Allow), decide(&candidates, &findings));
    let findings = vec![Finding::NoMatch, Finding::Fails, Finding::Holds];
    assert_eq!(Ok(PermissionResponse::Allow), decide(&candidates, &findings));
}

#[test]
fn test_decide_error_ends_the_search() {
    let candidates = vec![candidate("READ", "Allow", "x", "Doc"), candidate("READ", "Allow", "", "Doc")];
    let findings = vec![Finding::Error("boom".to_string()), Finding::Unconditional];
    assert_eq!(Err(RbacError::Evaluation("boom".to_string())), decide(&candidates, &findings));
}

#[test]
fn test_decide_lists_the_candidates_when_none_decides() {
    let candidates = vec![candidate("READ", "Allow", "a < 1", "Doc"), candidate("VIEW", "Allow", "", "Page")];
    let findings = vec![Finding::Fails, Finding::NoMatch];
    assert_eq!(
        Err(RbacError::Evaluation(
            "No matching claim found -- available claims: \tREAD     a < 1     Doc\n\tVIEW          Page\n!!!"
                .to_string()
        )),
        decide(&candidates, &findings)
    );
    assert_eq!(
        Err(RbacError::Evaluation("No matching claim found -- available claims: !!!".to_string())),
        decide(&Vec::new(), &Vec::new())
    );
}

#[test]
fn test_decide_reads_no_more_candidates_than_findings() {
    let candidates = vec![candidate("READ", "Allow", "", "Doc"), candidate("READ", "Deny", "", "Doc")];
    let findings = vec![Finding::NoMatch];
    assert_eq!(
        Err(RbacError::Evaluation(
            "No matching claim found -- available claims: \tREAD          Doc\n!!!".to_string()
        )),
        decide(&candidates, &findings)
    );
    let findings = vec![Finding::NoMatch, Finding::NoMatch, Finding::Holds];
    assert!(decide(&candidates, &findings).is_err());
}

#[test]
fn test_decide_is_deterministic() {
    let candidates = vec![candidate("READ", "Allow", "x", "Doc"), candidate("READ", "Deny", "", "Doc")];
    let findings = vec![Finding::Fails, Finding::Unconditional];
    assert_eq!(decide(&candidates, &findings), decide(&candidates, &findings));
}

#[test]
fn test_check_unknown_principal_is_not_found() {
    let mut sm = SecurityManager::new(PersistenceManager::new());
    let req = PermissionRequest::new("realm", "nobody", ActionType::READ, "Doc", "");
    match sm.check(&req) {
        Err(RbacError::NotFound(_)) => {},
        other => panic!("unexpected {:?}", other),
    }
    assert_eq!(0, sm.persistence_manager.audit_record_repository.latest(10).len());
}

#[test]
fn test_check_is_deterministic_and_first_match_wins() {
    let ctx = SecurityContext::new("0", "0");
    let mut pm = PersistenceManager::new();
    let realm = pm.new_realm_with(&ctx, "docs").unwrap();
    let org = pm.new_org_with(&ctx, "acme").unwrap();
    let ann = pm.new_principal_with(&ctx, &org, "ann").unwrap();
    let doc = pm.new_resource_with(&ctx, &realm, "Doc").unwrap();
    let deny = pm
        .claim_repository
        .create(&ctx, &Claim::new("", realm.id.as_str(), doc.id.as_str(), "READ", "Deny", None))
        .unwrap();
    let allow = pm.new_claim_with(&ctx, &realm, &doc, "(READ|VIEW)").unwrap();
    pm.map_principal_to_claim(&ctx, &ann, &deny, "", "").unwrap();
    pm.map_principal_to_claim(&ctx, &ann, &allow, "", "").unwrap();
    let mut sm = SecurityManager::new(pm);
    let now = Utc::now().timestamp();

    let req = PermissionRequest::new(realm.id.as_str(), ann.id.as_str(), ActionType::READ, "Doc", "");
    assert_eq!(Ok(PermissionResponse::Deny), sm.check_at(&req, now));
    assert_eq!(Ok(PermissionResponse::Deny), sm.check_at(&req, now));
    assert_eq!(Ok(PermissionResponse::Deny), sm.check(&req));

    let req = PermissionRequest::new(realm.id.as_str(), ann.id.as_str(), ActionType::VIEW, "Doc", "");
    assert_eq!(Ok(PermissionResponse::Allow), sm.check_at(&req, now));
}

#[test]
fn test_check_reports_a_constraint_that_cannot_be_evaluated() {
    let ctx = SecurityContext::new("0", "0");
    let mut pm = PersistenceManager::new();
    let realm = pm.new_realm_with(&ctx, "docs").unwrap();
    let org = pm.new_org_with(&ctx, "acme").unwrap();
    let ann = pm.new_principal_with(&ctx, &org, "ann").unwrap();
    let doc = pm.new_resource_with(&ctx, &realm, "Doc").unwrap();
    let read = pm.new_claim_with(&ctx, &realm, &doc, "READ").unwrap();
    pm.map_principal_to_claim(&ctx, &ann, &read, "", "missing == 1").unwrap();
    let mut sm = SecurityManager::new(pm);
    let req = PermissionRequest::new(realm.id.as_str(), ann.id.as_str(), ActionType::READ, "Doc", "");
    match sm.check(&req) {
        Err(RbacError::Evaluation(message)) => assert!(message.starts_with("Invalid expression")),
        other => panic!("unexpected {:?}", other),
    }
    let mut req = PermissionRequest::new(realm.id.as_str(), ann.id.as_str(), ActionType::READ, "Doc", "");
    req.context.add("missing", ValueWrapper::Int(1));
    assert_eq!(Ok(PermissionResponse::Allow), sm.check(&req));
}

#[test]
fn test_inheritance_is_closed_under_ancestry() {
    let ctx = SecurityContext::new("0", "0");
    let mut pm = PersistenceManager::new();
    let realm = pm.new_realm_with(&ctx, "banking").unwrap();
    let org = pm.new_org_with(&ctx, "bank").unwrap();
    let cassy = pm.new_principal_with(&ctx, &org, "cassy").unwrap();
    let employee = pm.new_role_with(&ctx, &realm, &org, "Employee").unwrap();
    let teller = pm.new_role_with_parent(&ctx, &realm, &org, &employee, "Teller").unwrap();
    let csr = pm.new_role_with_parent(&ctx, &realm, &org, &teller, "CSR").unwrap();
    let account = pm.new_resource_with(&ctx, &realm, "DepositAccount").unwrap();
    let read = pm.new_claim_with(&ctx, &realm, &account, "READ").unwrap();
    pm.map_principal_to_role(&ctx, &cassy, &csr).unwrap();
    pm.map_role_to_claim(&ctx, &employee, &read, "U.S.", "").unwrap();

    let loaded = pm.get_principal(&ctx, realm.id.as_str(), cassy.id.as_str()).unwrap();
    let names: Vec<&str> = loaded.roles.iter().map(|r| r.name.as_str()).collect();
    assert_eq!(vec!["Employee", "Teller", "CSR"], names);
    assert_eq!(1, loaded.claims.len());
    assert_eq!(1, loaded.resources.len());

    let mut sm = SecurityManager::new(pm);
    let req = PermissionRequest::new(realm.id.as_str(), cassy.id.as_str(), ActionType::READ, "DepositAccount", "U.S.");
    assert_eq!(Ok(PermissionResponse::Allow), sm.check(&req));
    let req = PermissionRequest::new(realm.id.as_str(), cassy.id.as_str(), ActionType::READ, "DepositAccount", "U.K.");
    assert!(sm.check(&req).is_err());
}

#[test]
fn test_role_cycle_does_not_hang_resolution() {
    let ctx = SecurityContext::new("0", "0");
    let mut pm = PersistenceManager::new();
    let realm = pm.new_realm_with(&ctx, "loop").unwrap();
    let org = pm.new_org_with(&ctx, "acme").unwrap();
    let ann = pm.new_principal_with(&ctx, &org, "ann").unwrap();
    let a = pm.new_role_with(&ctx, &realm, &org, "A").unwrap();
    let b = pm.new_role_with_parent(&ctx, &realm, &org, &a, "B").unwrap();
    let mut a_again: Role = pm.role_repository.get(&ctx, org.id.as_str(), a.id.as_str()).unwrap();
    a_again.parent_id = Some(b.id.clone());
    pm.role_repository.update(&ctx, &a_again).unwrap();
    pm.map_principal_to_role(&ctx, &ann, &b).unwrap();
    let loaded = pm.get_principal(&ctx, realm.id.as_str(), ann.id.as_str()).unwrap();
    assert_eq!(2, loaded.roles.len());
}

#[test]
fn test_grants_outside_their_window_are_ignored() {
    let ctx = SecurityContext::new("0", "0");
    let mut pm = PersistenceManager::new();
    let now = Utc::now().timestamp();
    let realm = pm.new_realm_with(&ctx, "docs").unwrap();
    let org = pm.new_org_with(&ctx, "acme").unwrap();
    let ann = pm.new_principal_with(&ctx, &org, "ann").unwrap();
    let reader = pm.new_role_with(&ctx, &realm, &org, "Reader").unwrap();
    let writer = pm.new_role_with(&ctx, &realm, &org, "Writer").unwrap();
    let doc = pm.new_resource_with(&ctx, &realm, "Doc").unwrap();
    let read = pm.new_claim_with(&ctx, &realm, &doc, "READ").unwrap();
    let update = pm.new_claim_with(&ctx, &realm, &doc, "UPDATE").unwrap();
    // the role grant to the reader has expired, the one to the writer is not yet in force
    pm.role_roleable_repository
        .add_principal_to_role(&ctx, reader.id.as_str(), ann.id.as_str(), "", now - 100, now - 1)
        .unwrap();
    pm.role_roleable_repository
        .add_principal_to_role(&ctx, writer.id.as_str(), ann.id.as_str(), "", now + 1, FAR_FUTURE)
        .unwrap();
    pm.map_role_to_claim(&ctx, &reader, &read, "", "").unwrap();
    pm.map_role_to_claim(&ctx, &writer, &update, "", "").unwrap();
    // a claim grant to the principal that has expired
    pm.claim_claimable_repository
        .add_principal_to_claim(&ctx, ann.id.as_str(), read.id.as_str(), "", "", now - 100, now - 1)
        .unwrap();

    let loaded = pm.get_principal_at(&ctx, realm.id.as_str(), ann.id.as_str(), now).unwrap();
    assert_eq!(0, loaded.roles.len());
    assert_eq!(0, loaded.claims.len());
    // the rows are kept, and each is read inside its window
    assert_eq!(2, pm.role_roleable_repository.table.len());
    let earlier = pm.get_principal_at(&ctx, realm.id.as_str(), ann.id.as_str(), now - 50).unwrap();
    assert_eq!(1, earlier.roles.len());
    // the grant of the claim to the role came into force only when it was made
    assert_eq!(1, earlier.claims.len());
    let at_the_edge = pm.get_principal_at(&ctx, realm.id.as_str(), ann.id.as_str(), now - 1).unwrap();
    assert_eq!(1, at_the_edge.roles.len());
    let later = pm.get_principal_at(&ctx, realm.id.as_str(), ann.id.as_str(), now + 1).unwrap();
    assert_eq!("Writer", later.roles[0].name);

    let mut sm = SecurityManager::new(pm);
    let req = PermissionRequest::new(realm.id.as_str(), ann.id.as_str(), ActionType::READ, "Doc", "");
    assert!(sm.check_at(&req, now).is_err());
    assert_eq!(Ok(PermissionResponse::Allow), sm.check_at(&req, now - 50));
}

#[test]
fn test_dangling_rows_are_skipped_and_audited() {
    let ctx = SecurityContext::new("0", "auditor");
    let mut pm = PersistenceManager::new();
    let realm = pm.new_realm_with(&ctx, "docs").unwrap();
    let org = pm.new_org_with(&ctx, "acme").unwrap();
    let ann = pm.new_principal_with(&ctx, &org, "ann").unwrap();
    let reader = pm.new_role_with(&ctx, &realm, &org, "Reader").unwrap();
    let gone = pm.new_role_with(&ctx, &realm, &org, "Gone").unwrap();
    let group = pm.new_group_with(&ctx, &org, "staff").unwrap();
    let doc = pm.new_resource_with(&ctx, &realm, "Doc").unwrap();
    let read = pm.new_claim_with(&ctx, &realm, &doc, "READ").unwrap();
    let lost = pm.new_claim_with(&ctx, &realm, &doc, "UPDATE").unwrap();
    pm.map_principal_to_role(&ctx, &ann, &reader).unwrap();
    pm.map_principal_to_role(&ctx, &ann, &gone).unwrap();
    pm.map_principal_to_group(&ctx, &ann, &group).unwrap();
    pm.map_role_to_claim(&ctx, &reader, &read, "", "").unwrap();
    pm.map_role_to_claim(&ctx, &reader, &lost, "", "").unwrap();
    // what three of the rows refer to is deleted
    assert_eq!(Ok(1), pm.role_repository.delete(&ctx, org.id.as_str(), gone.id.as_str()));
    assert_eq!(Ok(1), pm.group_repository.delete(&ctx, org.id.as_str(), group.id.as_str()));
    assert_eq!(Ok(1), pm.claim_repository.delete(&ctx, realm.id.as_str(), doc.id.as_str(), lost.id.as_str()));

    let loaded = pm.get_principal(&ctx, realm.id.as_str(), ann.id.as_str()).unwrap();
    assert_eq!(1, loaded.roles.len());
    assert_eq!(0, loaded.groups.len());
    assert_eq!(1, loaded.claims.len());
    let entries = pm.audit_record_repository.latest(10);
    assert_eq!(3, entries.len());
    for entry in &entries {
        assert_eq!(Some("GET".to_string()), entry.action);
        assert_eq!(Some("auditor".to_string()), entry.created_by);
    }

    let mut sm = SecurityManager::new(pm);
    let req = PermissionRequest::new(realm.id.as_str(), ann.id.as_str(), ActionType::READ, "Doc", "");
    assert_eq!(Ok(PermissionResponse::Allow), sm.check(&req));
}

#[test]
fn test_license_layer_is_the_outer_envelope() {
    let ctx = SecurityContext::new("0", "0");
    let mut pm = PersistenceManager::new();
    let realm = pm.new_realm_with(&ctx, "curie").unwrap();
    let org = pm.new_org_with(&ctx, "Freemium").unwrap();
    let policy: LicensePolicy = pm.new_license_policy(&ctx, &org).unwrap();
    let frank = pm.new_principal_with(&ctx, &org, "frank").unwrap();
    let customer = pm.new_role_with(&ctx, &realm, &org, "Customer").unwrap();
    let feature = pm.new_resource_with(&ctx, &realm, "Feature").unwrap();
    let view = pm.new_claim_with(&ctx, &realm, &feature, "VIEW").unwrap();
    pm.map_principal_to_role(&ctx, &frank, &customer).unwrap();
    pm.map_license_policy_to_claim(&ctx, &policy, &view, "UI::Flag::BasicReport", "").unwrap();
    // the role is granted the claim under one row only, so grant the second scope to the principal
    pm.map_role_to_claim(&ctx, &customer, &view, "UI::Flag::BasicReport", "").unwrap();
    pm.map_principal_to_claim(&ctx, &frank, &view, "UI::Flag::AdvancedReport", "").unwrap();

    let loaded = pm.get_principal(&ctx, realm.id.as_str(), frank.id.as_str()).unwrap();
    assert_eq!(1, loaded.claims.len());
    assert_eq!(1, pm.audit_record_repository.latest(10).len());

    let mut sm = SecurityManager::new(pm);
    let req =
        PermissionRequest::new(realm.id.as_str(), frank.id.as_str(), ActionType::VIEW, "Feature", "UI::Flag::BasicReport");
    assert_eq!(Ok(PermissionResponse::Allow), sm.check(&req));
    let req = PermissionRequest::new(
        realm.id.as_str(),
        frank.id.as_str(),
        ActionType::VIEW,
        "Feature",
        "UI::Flag::AdvancedReport",
    );
    match sm.check(&req) {
        Err(RbacError::Evaluation(_)) => {},
        other => panic!("unexpected {:?}", other),
    }
}

#[test]
fn test_license_without_scoped_grants_is_permissive() {
    let ctx = SecurityContext::new("0", "0");
    let mut pm = PersistenceManager::new();
    let realm = pm.new_realm_with(&ctx, "curie").unwrap();
    let org = pm.new_org_with(&ctx, "Open").unwrap();
    let policy = pm.new_license_policy(&ctx, &org).unwrap();
    let ann = pm.new_principal_with(&ctx, &org, "ann").unwrap();
    let feature = pm.new_resource_with(&ctx, &realm, "Feature").unwrap();
    let view = pm.new_claim_with(&ctx, &realm, &feature, "VIEW").unwrap();
    pm.map_license_policy_to_claim(&ctx, &policy, &view, "", "").unwrap();
    pm.map_principal_to_claim(&ctx, &ann, &view, "Anything", "").unwrap();
    let loaded = pm.get_principal(&ctx, realm.id.as_str(), ann.id.as_str()).unwrap();
    // the filter is bypassed, so the grant is resolved
    assert_eq!(1, loaded.claims.len());
    // but a request is let through only for a scope under which a claim is licensed
    let mut sm = SecurityManager::new(pm);
    let req = PermissionRequest::new(realm.id.as_str(), ann.id.as_str(), ActionType::VIEW, "Feature", "Anything");
    assert!(sm.check(&req).is_err());
}
