#![allow(unused_variables, unused_mut)]

use plexrbac::common::{ActionType, Property, RbacError, SecurityContext, ValueWrapper};
use plexrbac::domain::models::LicensePolicy;
use plexrbac::persistence::license_policy_repository::LicensePolicyRepository;
use plexrbac::persistence::manager::PersistenceManager;
use plexrbac::security::manager::{finding_of, Finding, SecurityManager};
use plexrbac::security::request::PermissionRequest;
use plexrbac::security::response::PermissionResponse;
use plexrbac::service::security;
use plexrbac::utils::evaluator::{call_builtin, evaluate, Builtin};
use plexrbac::utils::text::{regex_find, regex_match, try_regex_find, try_regex_match};

#[test]
fn test_finding_of_every_outcome() {
    assert_eq!(Finding::NoMatch, finding_of(false, None));
    assert_eq!(Finding::NoMatch, finding_of(false, Some(Ok(true))));
    assert_eq!(Finding::Unconditional, finding_of(true, None));
    assert_eq!(Finding::Holds, finding_of(true, Some(Ok(true))));
    assert_eq!(Finding::Fails, finding_of(true, Some(Ok(false))));
    assert_eq!(
        Finding::Error("no such name".to_string()),
        finding_of(true, Some(Err(RbacError::Evaluation("no such name".to_string()))))
    );
}

#[test]
fn test_missing_principal_is_not_found() {
    let ctx = SecurityContext::new("docs", "admin");
    let mut pm = PersistenceManager::new();
    let org = pm.new_org_with(&ctx, "acme").unwrap();
    let ann = pm.new_principal_with(&ctx, &org, "ann").unwrap();
    let mut sm = SecurityManager::new(pm);
    let req = PermissionRequest::new("docs", "nobody", ActionType::READ, "Doc", "");
    assert!(matches!(sm.check(&req), Err(RbacError::NotFound(_))));
    assert!(matches!(sm.check_at(&req, 100), Err(RbacError::NotFound(_))));
    match security::check(&mut sm, &req) {
        Err(status) => {
            assert_eq!(404, status.code);
            assert!(status.message.starts_with("Failed to authorize - "));
        },
        other => panic!("unexpected {:?}", other),
    }
    let req = PermissionRequest::new("docs", ann.id.as_str(), ActionType::READ, "Doc", "");
    assert!(matches!(sm.check(&req), Err(RbacError::Evaluation(_))));
    assert_eq!(401, security::report(Err(RbacError::Evaluation("no".to_string()))).unwrap_err().code);
    assert_eq!(404, security::report(Err(RbacError::NotFound("no".to_string()))).unwrap_err().code);
    assert_eq!(Ok(PermissionResponse::Deny), security::report(Ok(PermissionResponse::Deny)));
}

#[test]
fn test_constraints_decide_by_what_they_evaluate_to() {
    let ctx = SecurityContext::new("banking", "admin");
    let mut pm = PersistenceManager::new();
    let realm = pm.new_realm_with(&ctx, "banking").unwrap();
    let org = pm.new_org_with(&ctx, "bank").unwrap();
    let tom = pm.new_principal_with(&ctx, &org, "tom").unwrap();
    let account = pm.new_resource_with(&ctx, &realm, "Account").unwrap();
    let read = pm.new_claim_with(&ctx, &realm, &account, "READ").unwrap();
    let write = pm.new_claim_with(&ctx, &realm, &account, "(READ|UPDATE)").unwrap();
    pm.map_principal_to_claim(&ctx, &tom, &read, "", "region == \"Midwest\"").unwrap();
    pm.map_principal_to_claim(&ctx, &tom, &write, "", "level > 3").unwrap();
    let mut sm = SecurityManager::new(pm);
    let mut req = PermissionRequest::new(realm.id.as_str(), tom.id.as_str(), ActionType::READ, "Account", "");
    req.context.add("region", ValueWrapper::String("Midwest".to_string()));
    req.context.add("level", ValueWrapper::Int(1));
    assert_eq!(Ok(PermissionResponse::Allow), sm.check(&req));
    // the first constraint is false and is passed over, the second holds
    req.context.add("region", ValueWrapper::String("South".to_string()));
    req.context.add("level", ValueWrapper::Int(5));
    assert_eq!(Ok(PermissionResponse::Allow), sm.check(&req));
    // both are false: no claim matches
    req.context.add("level", ValueWrapper::Int(2));
    match sm.check(&req) {
        Err(RbacError::Evaluation(message)) => assert!(message.starts_with("No matching claim found")),
        other => panic!("unexpected {:?}", other),
    }
    // the first cannot be evaluated: its error ends the search
    let mut req = PermissionRequest::new(realm.id.as_str(), tom.id.as_str(), ActionType::READ, "Account", "");
    req.context.add("level", ValueWrapper::Int(5));
    match sm.check(&req) {
        Err(RbacError::Evaluation(message)) => assert!(message.starts_with("Invalid expression")),
        other => panic!("unexpected {:?}", other),
    }
}

#[test]
fn test_functions_of_the_expression_language_itself_are_switched_off() {
    let properties = vec![Property { name: "s".to_string(), value: ValueWrapper::String("h\u{e9}llo".to_string()) }];
    assert!(evaluate("str::substring(s, 2, 3) == \"x\"", &properties).is_err());
    assert!(evaluate("len(s) == 6", &properties).is_err());
    assert!(evaluate("min(1, 2) == 1", &properties).is_err());
    assert!(evaluate("str::to_uppercase(s) == \"X\"", &properties).is_err());
    assert_eq!(Ok(true), evaluate("regex_find(\"l+\", s)", &properties));
}

#[test]
fn test_pattern_is_tried_alone_before_it_is_anchored() {
    assert_eq!(None, try_regex_find("a)|(b", "b"));
    assert_eq!(None, try_regex_match("a)|(b", "b"));
    assert!(!regex_match("a)|(b", "b"));
    assert!(!regex_find("a)|(b", "b"));
    assert_eq!(Some(true), try_regex_match("a|ab", "ab"));
    assert_eq!(Some(false), try_regex_match("a|ab", "abc"));
    assert_eq!(Some(true), try_regex_find("a|ab", "abc"));
    assert_eq!(Some(true), try_regex_find("(?x) b # the letter", "abc"));
    assert_eq!(None, try_regex_match("(?x) b # the letter", "b"));
    let args = vec![ValueWrapper::String("a)|(b".to_string()), ValueWrapper::String("b".to_string())];
    assert!(call_builtin(Builtin::RegexMatch, &args).is_err());
}

#[test]
fn test_refused_update_leaves_the_policy_as_it_was() {
    let ctx = SecurityContext::new("realm", "admin");
    let mut repo = LicensePolicyRepository::new();
    let first = repo.create_with(&ctx, &LicensePolicy::new("", "org", "first", None, 0, 100), "one".to_string(), 50).unwrap();
    let second =
        repo.create_with(&ctx, &LicensePolicy::new("", "org", "second", None, 200, 300), "two".to_string(), 150).unwrap();
    let trail = repo.audit_record_repository.records.len();
    let mut wider = second.clone();
    wider.effective_at = 0;
    wider.description = Some("wider".to_string());
    assert!(matches!(repo.update_at(&ctx, &wider, 50), Err(RbacError::Duplicate(_))));
    assert_eq!(Some(second.clone()), repo.get(&ctx, "org", "two"));
    assert_eq!(Some(first.clone()), repo.get(&ctx, "org", "one"));
    assert_eq!(1, repo.count_by_org_at("org", 50));
    assert_eq!(trail + 1, repo.audit_record_repository.records.len());
    // at an instant at which only one of them is in force the update is taken
    let updated = repo.update_at(&ctx, &wider, 400).unwrap();
    assert_eq!(0, updated.effective_at);
    assert_eq!(Some(updated), repo.get(&ctx, "org", "two"));
    let mut missing = second.clone();
    missing.id = "three".to_string();
    assert!(matches!(repo.update_at(&ctx, &missing, 50), Err(RbacError::NotFound(_))));
}

#[test]
fn test_clear_keeps_every_audit_trail() {
    let ctx = SecurityContext::new("banking", "admin");
    let mut pm = PersistenceManager::new();
    let realm = pm.new_realm_with(&ctx, "banking").unwrap();
    let org = pm.new_org_with(&ctx, "bank").unwrap();
    let tom = pm.new_principal_with(&ctx, &org, "tom").unwrap();
    let role = pm.new_role_with(&ctx, &realm, &org, "Teller").unwrap();
    pm.map_principal_to_role(&ctx, &tom, &role).unwrap();
    let before = (
        pm.realm_repository.audit_record_repository.records.len(),
        pm.org_repository.audit_record_repository.records.len(),
        pm.principal_repository.audit_record_repository.records.len(),
        pm.role_repository.audit_record_repository.records.len(),
        pm.role_roleable_repository.audit_record_repository.records.len(),
        pm.audit_record_repository.records.len(),
    );
    assert!(before.0 > 0 && before.1 > 0 && before.2 > 0 && before.3 > 0 && before.4 > 0);
    pm.clear();
    let after = (
        pm.realm_repository.audit_record_repository.records.len(),
        pm.org_repository.audit_record_repository.records.len(),
        pm.principal_repository.audit_record_repository.records.len(),
        pm.role_repository.audit_record_repository.records.len(),
        pm.role_roleable_repository.audit_record_repository.records.len(),
        pm.audit_record_repository.records.len(),
    );
    assert_eq!(before, after);
    assert_eq!(0, pm.realm_repository.table.rows.len());
    assert_eq!(0, pm.role_roleable_repository.table.rows.len());
}

#[test]
fn test_new_identifiers_have_36_characters() {
    let ctx = SecurityContext::new("banking", "admin");
    let mut pm = PersistenceManager::new();
    let org = pm.new_org_with(&ctx, "bank").unwrap();
    let tom = pm.new_principal_with(&ctx, &org, "tom").unwrap();
    assert_eq!(36, org.id.chars().count());
    assert_eq!(36, tom.id.chars().count());
    assert_ne!(org.id, tom.id);
    assert_eq!(4, tom.id.chars().filter(|c| *c == '-').count());
}
