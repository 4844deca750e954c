//! The operation behind the permission check.

use vstd::prelude::*;
use vstd::string::*;

use crate::common::RbacError;
use crate::security::manager::SecurityManager;
use crate::security::request::PermissionRequest;
use crate::security::response::PermissionResponse;
use crate::service::common::ErrorStatus;
use crate::utils::evaluator::variables;

verus! {

/// The status code under which a failed decision is reported: 404 where the
/// principal was not found, and 401, not authorized, for every other error.
pub open spec fn refusal_code(e: RbacError) -> u16 {
    if e is NotFound {
        404
    } else {
        401
    }
}

/// How the outcome of a decision is reported: an answer as it is, and an
/// error under its status code with a message that tells of the failure.
pub open spec fn reported(inner: Result<PermissionResponse, RbacError>, r: Result<PermissionResponse, ErrorStatus>) -> bool {
    match inner {
        Ok(response) => r == Ok::<PermissionResponse, ErrorStatus>(response),
        Err(e) => r is Err && r->Err_0.code == refusal_code(e) && r->Err_0.message@ == "Failed to authorize - "@
            + e.message(),
    }
}

/// Reports the outcome of a decision.
pub fn report(inner: Result<PermissionResponse, RbacError>) -> (r: Result<PermissionResponse, ErrorStatus>)
    ensures
        reported(inner, r),
{
    match inner {
        Ok(response) => Ok(response),
        Err(e) => {
            let code: u16 = match &e {
                RbacError::NotFound(_) => 404,
                _ => 401,
            };
            Err(ErrorStatus { code: code, message: String::from_str("Failed to authorize - ").concat(e.description()) })
        },
    }
}

/// Decides a request at the current time and reports the outcome.
pub fn check(sm: &mut SecurityManager, req: &PermissionRequest) -> (r: Result<PermissionResponse, ErrorStatus>)
    requires
        old(sm).persistence_manager.wf(),
    ensures
        exists|now: i64, inner: Result<PermissionResponse, RbacError>|
            #[trigger] SecurityManager::check_outcome(
                old(sm).persistence_manager,
                final(sm).persistence_manager,
                *req,
                now,
                variables(old(sm).functions),
                inner,
            ) && reported(inner, r),
        final(sm).persistence_manager.wf(),
        final(sm).functions == old(sm).functions,
{
    let inner = sm.check(req);
    proof {
        let vars = variables(old(sm).functions);
        let now = choose|now: i64|
            SecurityManager::check_outcome(old(sm).persistence_manager, sm.persistence_manager, *req, now, vars, inner);
        assert(SecurityManager::check_outcome(
            old(sm).persistence_manager,
            sm.persistence_manager,
            *req,
            now,
            vars,
            inner,
        ));
    }
    report(inner)
}

} // verus!
