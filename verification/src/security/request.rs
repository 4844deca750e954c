//! A request for permission: who asks, in which realm, to do what, on which
//! resource, under which scope, and with which context values.

use vstd::prelude::*;

use crate::common::{ActionType, SecurityContext};

verus! {

/// A request for permission.
#[derive(Debug, PartialEq)]
pub struct PermissionRequest {
    pub action: String,
    pub resource_name: String,
    pub resource_scope: String,
    pub context: SecurityContext,
}

impl Clone for PermissionRequest {
    fn clone(&self) -> (r: Self)
        ensures
            r.action == self.action,
            r.resource_name == self.resource_name,
            r.resource_scope == self.resource_scope,
            r.context.realm_id == self.context.realm_id,
            r.context.principal_id == self.context.principal_id,
            r.context.properties@ == self.context.properties@,
    {
        PermissionRequest {
            action: self.action.clone(),
            resource_name: self.resource_name.clone(),
            resource_scope: self.resource_scope.clone(),
            context: self.context.clone(),
        }
    }
}

impl PermissionRequest {
    /// A request by `principal_id` in `realm_id` to do `action`, one of the
    /// sample actions, with no context values yet.
    pub fn new(
        realm_id: &str,
        principal_id: &str,
        action: ActionType,
        resource_name: &str,
        resource_scope: &str,
    ) -> (r:
        PermissionRequest)
        ensures
            r.action@ == action.name(),
            r.resource_name@ == resource_name@,
            r.resource_scope@ == resource_scope@,
            r.context.realm_id@ == realm_id@,
            r.context.principal_id@ == principal_id@,
            r.context.properties@.len() == 0,
    {
        PermissionRequest {
            action: action.to_string(),
            resource_name: resource_name.to_string(),
            resource_scope: resource_scope.to_string(),
            context: SecurityContext::new(realm_id, principal_id),
        }
    }

    /// A request by `principal_id` in `realm_id` to do the action named
    /// `action`, with no context values yet.
    pub fn with(realm_id: &str, principal_id: &str, action: &str, resource_name: &str, resource_scope: &str) -> (r:
        PermissionRequest)
        ensures
            r.action@ == action@,
            r.resource_name@ == resource_name@,
            r.resource_scope@ == resource_scope@,
            r.context.realm_id@ == realm_id@,
            r.context.principal_id@ == principal_id@,
            r.context.properties@.len() == 0,
    {
        PermissionRequest {
            action: action.to_string(),
            resource_name: resource_name.to_string(),
            resource_scope: resource_scope.to_string(),
            context: SecurityContext::new(realm_id, principal_id),
        }
    }
}

} // verus!
