//! The security manager: decides whether a request is allowed.
//!
//! The claims granted to the principal that speak of the requested resource
//! under the requested scope are considered in their order. The first whose
//! action pattern is found in the requested action, and whose constraints, if
//! it has any, hold of the context values, decides. A request of a principal
//! that the store does not hold fails as not found.

use evalexpr::HashMapContext;
use vstd::prelude::*;
use vstd::string::*;

use crate::common::{Property, RbacError};
use crate::domain::models::{ClaimResource, Principal};
use crate::persistence::manager::PersistenceManager;
use crate::persistence::table::{
    first_index, lemma_first_index, lemma_first_index_is, lemma_first_index_none,
};
use crate::security::request::PermissionRequest;
use crate::security::response::PermissionResponse;
use crate::utils::clock;
use crate::utils::evaluator::{evaluate_with, evaluated, new_context, variables, Held};
use crate::utils::text::{regex_find, regex_find_spec};

verus! {

/// What considering one candidate found.
#[derive(Debug, PartialEq)]
pub enum Finding {
    /// The action pattern of the claim is not found in the requested action.
    NoMatch,
    /// The pattern is found and the grant has no constraints.
    Unconditional,
    /// The pattern is found and the constraints hold.
    Holds,
    /// The pattern is found and the constraints do not hold.
    Fails,
    /// The pattern is found and the constraints could not be evaluated.
    Error(String),
}

/// A finding that ends the search.
pub open spec fn decisive() -> spec_fn(Finding) -> bool {
    |f: Finding| f is Unconditional || f is Holds || f is Error
}

/// Whether `f` is what is found for a candidate, given whether its action
/// pattern was found in the requested action and what its constraints
/// evaluated to; `None` stands for constraints that were not evaluated,
/// because the grant has none. Constraints that are true hold, those that are
/// false fail, and an evaluation that failed is an error with its message.
pub open spec fn found_by(found: bool, outcome: Option<Result<bool, RbacError>>, f: Finding) -> bool {
    if !found {
        f is NoMatch
    } else {
        match outcome {
            None => f is Unconditional,
            Some(Ok(holds)) => if holds {
                f is Holds
            } else {
                f is Fails
            },
            Some(Err(e)) => f is Error && f->Error_0@ == e.message(),
        }
    }
}

/// What is found for a candidate, from whether its action pattern was found
/// in the requested action and from what its constraints evaluated to, if
/// they were evaluated.
pub fn finding_of(found: bool, outcome: Option<Result<bool, RbacError>>) -> (f: Finding)
    ensures
        found_by(found, outcome, f),
{
    if !found {
        return Finding::NoMatch;
    }
    match outcome {
        None => Finding::Unconditional,
        Some(Ok(true)) => Finding::Holds,
        Some(Ok(false)) => Finding::Fails,
        Some(Err(e)) => Finding::Error(e.to_string()),
    }
}

/// Whether `f` is what considering the candidate `c` finds for the action
/// `action`, when its constraints evaluate to `outcome` against the context
/// values `properties`, in a context that starts with the variables `vars`.
/// The constraints are evaluated exactly where the pattern is found and the
/// grant has constraints, and `outcome` is then what their evaluation gave.
pub open spec fn considers(
    c: ClaimResource,
    action: Seq<char>,
    properties: Seq<Property>,
    vars: Map<Seq<char>, Held>,
    outcome: Option<Result<bool, RbacError>>,
    f: Finding,
) -> bool {
    let found = regex_find_spec(c.claim.action@, action);
    &&& outcome is Some <==> found && c.constraints@.len() > 0
    &&& outcome is Some ==> evaluated(outcome->0, c.constraints@, properties, vars)
    &&& found_by(found, outcome, f)
}

/// The lines that list candidates in a diagnostic: for each its action
/// pattern, its constraints and the name of its resource.
pub open spec fn listing(candidates: Seq<ClaimResource>) -> Seq<char>
    decreases candidates.len(),
{
    if candidates.len() == 0 {
        Seq::empty()
    } else {
        let c = candidates.last();
        listing(candidates.drop_last()) + "\t"@ + c.claim.action@ + "     "@ + c.constraints@ + "     "@
            + c.resource.resource_name@ + "\n"@
    }
}

/// The number of candidates that the findings speak of.
pub open spec fn considered(candidates: Seq<ClaimResource>, findings: Seq<Finding>) -> int {
    if findings.len() <= candidates.len() {
        findings.len() as int
    } else {
        candidates.len() as int
    }
}

/// The decision that findings lead to: the first decisive finding decides, by
/// the effect of its claim or by its error; where none is decisive, the
/// request fails with a diagnostic that lists the candidates considered.
pub open spec fn verdict_of(candidates: Seq<ClaimResource>, findings: Seq<Finding>) -> Result<
    PermissionResponse,
    Seq<char>,
> {
    let n = considered(candidates, findings);
    match first_index(findings.take(n), decisive()) {
        Some(i) => match findings[i] {
            Finding::Error(why) => Err(why@),
            _ => Ok(PermissionResponse::of_effect(candidates[i].claim.effect_text())),
        },
        None => Err("No matching claim found -- available claims: "@ + listing(candidates.take(n)) + "!!!"@),
    }
}

/// Whether `r` is the decision that the findings lead to.
pub open spec fn decided(
    candidates: Seq<ClaimResource>,
    findings: Seq<Finding>,
    r: Result<PermissionResponse,
    RbacError>,
) -> bool {
    match verdict_of(candidates, findings) {
        Ok(response) => r == Ok::<PermissionResponse, RbacError>(response),
        Err(why) => r is Err && r->Err_0 is Evaluation && r->Err_0.message() == why,
    }
}

/// Decides from what was found: the candidates are taken in their order
/// together with the findings, as far as there are findings, and the first
/// decisive finding decides.
pub fn decide(candidates: &Vec<ClaimResource>, findings: &Vec<Finding>) -> (r: Result<PermissionResponse, RbacError>)
    ensures
        decided(candidates@, findings@, r),
{
    let n: usize = if findings.len() <= candidates.len() {
        findings.len()
    } else {
        candidates.len()
    };
    let mut lines = String::from_str("No matching claim found -- available claims: ");
    let mut i: usize = 0;
    proof {
        assert(candidates@.take(0) =~= Seq::<ClaimResource>::empty());
    }
    while i < n
        invariant
            i <= n,
            n == considered(candidates@, findings@),
            forall|j: int| 0 <= j < i ==> !decisive()(findings@[j]),
            lines@ == "No matching claim found -- available claims: "@ + listing(candidates@.take(i as int)),
        decreases n - i,
    {
        proof {
            assert(findings@.take(n as int)[i as int] == findings@[i as int]);
            assert forall|j: int| 0 <= j < i implies !decisive()(findings@.take(n as int)[j]) by {
                assert(findings@.take(n as int)[j] == findings@[j]);
            }
        }
        match &findings[i] {
            Finding::Error(why) => {
                proof {
                    lemma_first_index_is(findings@.take(n as int), decisive(), i as int);
                }
                return Err(RbacError::Evaluation(why.clone()));
            },
            Finding::Unconditional | Finding::Holds => {
                proof {
                    lemma_first_index_is(findings@.take(n as int), decisive(), i as int);
                }
                return Ok(PermissionResponse::from(candidates[i].claim.effect()));
            },
            _ => {},
        }
        let c = &candidates[i];
        lines = lines.concat("\t").concat(c.claim.action.as_str()).concat("     ").concat(
            c.constraints.as_str(),
        ).concat("     ").concat(c.resource.resource_name.as_str()).concat("\n");
        proof {
            assert(candidates@.take(i + 1).drop_last() =~= candidates@.take(i as int));
            assert(lines@ =~= "No matching claim found -- available claims: "@ + listing(candidates@.take(i + 1)));
        }
        i += 1;
    }
    proof {
        assert forall|j: int| 0 <= j < n implies !decisive()(findings@.take(n as int)[j]) by {
            assert(findings@.take(n as int)[j] == findings@[j]);
        }
        lemma_first_index_none(findings@.take(n as int), decisive());
    }
    Err(RbacError::Evaluation(lines.concat("!!!")))
}

/// A decision is a function of the candidates and of what was found for them:
/// two decisions from the same findings agree in the answer, or in the error
/// and its message.
pub proof fn lemma_decision_is_determined(
    candidates: Seq<ClaimResource>,
    findings: Seq<Finding>,
    r1: Result<PermissionResponse, RbacError>,
    r2: Result<PermissionResponse, RbacError>,
)
    requires
        decided(candidates, findings, r1),
        decided(candidates, findings, r2),
    ensures
        r1 is Ok <==> r2 is Ok,
        r1 is Ok ==> r1->Ok_0 == r2->Ok_0,
        r1 is Err ==> r1->Err_0 is Evaluation
            && r2->Err_0 is Evaluation
            && r1->Err_0.message() == r2->Err_0.message(),
{
}

/// The first decisive finding wins: what was found after it does not bear on
/// the decision.
pub proof fn lemma_first_decisive_wins(
    candidates: Seq<ClaimResource>,
    findings: Seq<Finding>,
    more: Seq<Finding>,
    i: int,
)
    requires
        0 <= i < findings.len() <= candidates.len(),
        first_index(findings, decisive()) == Some(i),
        more.len() <= candidates.len(),
        i < more.len(),
        forall|j: int| 0 <= j <= i ==> more[j] == findings[j],
    ensures
        verdict_of(candidates, more) == verdict_of(candidates, findings),
{
    lemma_first_index(findings, decisive());
    assert(findings.take(findings.len() as int) =~= findings);
    assert(more.take(more.len() as int) =~= more);
    lemma_first_index_is(more, decisive(), i);
}

/// Findings that rest on the same outcomes lead to the same decision: what is
/// found for a candidate is a function of whether its pattern was found and
/// of what its constraints evaluated to.
pub proof fn lemma_same_outcomes_same_verdict(
    candidates: Seq<ClaimResource>,
    action: Seq<char>,
    outcomes: Seq<Option<Result<bool, RbacError>>>,
    f1: Seq<Finding>,
    f2: Seq<Finding>,
)
    requires
        f1.len() == outcomes.len() <= candidates.len(),
        f2.len() == outcomes.len(),
        forall|i: int|
            0 <= i < outcomes.len() ==> found_by(
                regex_find_spec(candidates[i].claim.action@, action),
                outcomes[i],
                #[trigger] f1[i],
            ),
        forall|i: int|
            0 <= i < outcomes.len() ==> found_by(
                regex_find_spec(candidates[i].claim.action@, action),
                outcomes[i],
                #[trigger] f2[i],
            ),
    ensures
        verdict_of(candidates, f1) == verdict_of(candidates, f2),
{
    let n = outcomes.len() as int;
    assert(f1.take(n) =~= f1);
    assert(f2.take(n) =~= f2);
    assert forall|i: int| 0 <= i < n implies decisive()(f1[i]) == decisive()(f2[i]) by {
        assert(found_by(regex_find_spec(candidates[i].claim.action@, action), outcomes[i], f1[i]));
        assert(found_by(regex_find_spec(candidates[i].claim.action@, action), outcomes[i], f2[i]));
    }
    lemma_first_index(f1, decisive());
    match first_index(f1, decisive()) {
        Some(i) => {
            lemma_first_index_is(f2, decisive(), i);
            assert(found_by(regex_find_spec(candidates[i].claim.action@, action), outcomes[i], f1[i]));
            assert(found_by(regex_find_spec(candidates[i].claim.action@, action), outcomes[i], f2[i]));
        },
        None => {
            lemma_first_index_none(f2, decisive());
        },
    }
}

/// The manager that decides requests, over the store and with the functions
/// that constraints may call besides the built-in ones.
pub struct SecurityManager {
    pub persistence_manager: PersistenceManager,
    pub functions: HashMapContext,
}

impl SecurityManager {
    /// A manager over the store, with the built-in functions alone.
    pub fn new(persistence_manager: PersistenceManager) -> (r: SecurityManager)
        ensures
            r.persistence_manager == persistence_manager,
    {
        SecurityManager { persistence_manager: persistence_manager, functions: new_context() }
    }

    /// A manager over the store whose constraints may also call the functions
    /// that `functions` brings. They are the caller's: each has to return on
    /// every argument, as a decision waits for it.
    pub fn with_functions(persistence_manager: PersistenceManager, functions: HashMapContext) -> (r: SecurityManager)
        ensures
            r.persistence_manager == persistence_manager,
            r.functions == functions,
    {
        SecurityManager { persistence_manager: persistence_manager, functions: functions }
    }

    /// How a request was decided at `now`: the principal was resolved, which
    /// led from the store `before` to `mid`; its candidates were gathered,
    /// which led to `after`; the candidates were considered one by one up to
    /// the first decisive finding, or all of them, the constraints of each
    /// evaluating to its outcome in a context that starts with the variables
    /// `vars`; and the findings decide.
    pub open spec fn trace(
        before: PersistenceManager,
        mid: PersistenceManager,
        after: PersistenceManager,
        request: PermissionRequest,
        now: i64,
        vars: Map<Seq<char>, Held>,
        principal: Principal,
        candidates: Seq<ClaimResource>,
        outcomes: Seq<Option<Result<bool, RbacError>>>,
        findings: Seq<Finding>,
        r: Result<PermissionResponse, RbacError>,
    ) -> bool {
        &&& PersistenceManager::get_principal_outcome(
            before,
            mid,
            request.context,
            request.context.realm_id@,
            request.context.principal_id@,
            now,
            Some(principal),
        )
        &&& PersistenceManager::candidates_outcome(
            mid,
            after,
            request.context,
            request.context.realm_id@,
            principal,
            request.resource_name@,
            request.resource_scope@,
            now,
            candidates,
        )
        &&& findings.len() <= candidates.len()
        &&& outcomes.len() == findings.len()
        &&& forall|i: int|
            0 <= i < findings.len() ==> considers(
                candidates[i],
                request.action@,
                request.context.properties@,
                vars,
                outcomes[i],
                #[trigger] findings[i],
            )
        &&& (findings.len() == candidates.len() || first_index(findings, decisive()) is Some)
        &&& decided(candidates, findings, r)
    }

    /// What deciding a request at `now` comes to, when the functions that
    /// constraints may call come with the variables `vars`. Where the store
    /// has no such principal, nothing changes and the error is `NotFound`.
    /// Otherwise there is a trace of the decision.
    pub open spec fn check_outcome(
        before: PersistenceManager,
        after: PersistenceManager,
        request: PermissionRequest,
        now: i64,
        vars: Map<Seq<char>, Held>,
        r: Result<PermissionResponse, RbacError>,
    ) -> bool {
        if first_index(
            before.principal_repository@,
            crate::persistence::principal_repository::scoped(request.context.principal_id@),
        ) is None {
            after == before && r is Err && r->Err_0 is NotFound
        } else {
            exists|
                mid: PersistenceManager,
                principal: Principal,
                candidates: Seq<ClaimResource>,
                outcomes: Seq<Option<Result<bool, RbacError>>>,
                findings: Seq<Finding>,
            | #[trigger]
                Self::trace(before, mid, after, request, now, vars, principal, candidates, outcomes, findings, r)
        }
    }

    /// A decision is deterministic: from the same store, on the same request
    /// at the same instant, and with the constraints evaluating to the same
    /// outcomes, the same candidates are considered and the decisions agree in
    /// the answer, or in the error and its message.
    pub proof fn lemma_check_is_determined(
        before: PersistenceManager,
        mid1: PersistenceManager,
        after1: PersistenceManager,
        mid2: PersistenceManager,
        after2: PersistenceManager,
        request: PermissionRequest,
        now: i64,
        vars: Map<Seq<char>, Held>,
        one: Principal,
        other: Principal,
        c1: Seq<ClaimResource>,
        c2: Seq<ClaimResource>,
        outcomes: Seq<Option<Result<bool, RbacError>>>,
        f1: Seq<Finding>,
        f2: Seq<Finding>,
        r1: Result<PermissionResponse, RbacError>,
        r2: Result<PermissionResponse, RbacError>,
    )
        requires
            Self::trace(before, mid1, after1, request, now, vars, one, c1, outcomes, f1, r1),
            Self::trace(before, mid2, after2, request, now, vars, other, c2, outcomes, f2, r2),
        ensures
            c1 == c2,
            r1 is Ok <==> r2 is Ok,
            r1 is Ok ==> r1->Ok_0 == r2->Ok_0,
            r1 is Err ==> r1->Err_0 is Evaluation && r2->Err_0 is Evaluation && r1->Err_0.message()
                == r2->Err_0.message(),
    {
        let realm_id = request.context.realm_id@;
        let name = request.resource_name@;
        let scope = request.resource_scope@;
        let found = first_index(
            before.principal_repository@,
            crate::persistence::principal_repository::scoped(request.context.principal_id@),
        );
        let row = before.principal_repository@[found->0];
        let b1 = choose|blank: String|
            blank@.len() == 0 && c1 == #[trigger] mid1.request_candidates(realm_id, blank, one, name, scope, now);
        let b2 = choose|blank: String|
            blank@.len() == 0 && c2 == #[trigger] mid2.request_candidates(realm_id, blank, other, name, scope, now);
        assert(mid1.request_candidates(realm_id, b1, one, name, scope, now) == before.request_candidates(
            realm_id,
            b1,
            one,
            name,
            scope,
            now,
        ));
        assert(mid2.request_candidates(realm_id, b2, other, name, scope, now) == before.request_candidates(
            realm_id,
            b2,
            other,
            name,
            scope,
            now,
        ));
        crate::persistence::manager::lemma_candidates_are_determined(
            before,
            realm_id,
            one,
            row,
            name,
            scope,
            now,
            b1,
            b2,
        );
        assert(before.request_candidates(realm_id, b2, one, name, scope, now) == before.request_candidates(
            realm_id,
            b2,
            other,
            name,
            scope,
            now,
        ));
        lemma_same_outcomes_same_verdict(c1, request.action@, outcomes, f1, f2);
    }

    /// Decides a request at the current time. The outcome is that of
    /// `check_at` for some instant.
    pub fn check(&mut self, request: &PermissionRequest) -> (r: Result<PermissionResponse, RbacError>)
        requires
            old(self).persistence_manager.wf(),
        ensures
            exists|now: i64| #[trigger]
                Self::check_outcome(
                    old(self).persistence_manager,
                    final(self).persistence_manager,
                    *request,
                    now,
                    variables(old(self).functions),
                    r,
                ),
            final(self).persistence_manager.wf(),
            final(self).functions == old(self).functions,
    {
        let now = clock::now();
        let r = self.check_at(request, now);
        proof {
            assert(Self::check_outcome(
                old(self).persistence_manager,
                self.persistence_manager,
                *request,
                now,
                variables(old(self).functions),
                r,
            ));
        }
        r
    }

    /// Decides a request at `now`. A principal that the store does not hold
    /// is not found. Otherwise the candidates are considered in their order:
    /// the action pattern of each is searched in the requested action, its
    /// constraints, if the pattern is found and the grant has any, are
    /// evaluated, and `finding_of` says what was found; the first decisive
    /// finding ends the search, and `decide` gives the answer.
    #[verifier::loop_isolation(false)]
    pub fn check_at(&mut self, request: &PermissionRequest, now: i64) -> (r: Result<PermissionResponse, RbacError>)
        requires
            old(self).persistence_manager.wf(),
        ensures
            Self::check_outcome(
                old(self).persistence_manager,
                final(self).persistence_manager,
                *request,
                now,
                variables(old(self).functions),
                r,
            ),
            final(self).persistence_manager.wf(),
            final(self).functions == old(self).functions,
    {
        let ctx = &request.context;
        let principal = match self.persistence_manager.get_principal_at(
            ctx,
            ctx.realm_id.as_str(),
            ctx.principal_id.as_str(),
            now,
        ) {
            Some(p) => p,
            None => {
                return Err(RbacError::NotFound("Could not find principal data".to_string()));
            },
        };
        let ghost mid = self.persistence_manager;
        let candidates = self.persistence_manager.get_resources_by_claims_at(
            ctx,
            ctx.realm_id.as_str(),
            &principal,
            request.resource_name.clone(),
            request.resource_scope.clone(),
            now,
        );
        let ghost vars = variables(self.functions);
        let ghost mut outcomes: Seq<Option<Result<bool, RbacError>>> = Seq::empty();
        let mut findings: Vec<Finding> = Vec::new();
        let mut i: usize = 0;
        while i < candidates.len()
            invariant
                i <= candidates@.len(),
                findings@.len() == i,
                outcomes.len() == i,
                forall|j: int|
                    0 <= j < i ==> considers(
                        candidates@[j],
                        request.action@,
                        request.context.properties@,
                        vars,
                        outcomes[j],
                        #[trigger] findings@[j],
                    ),
                forall|j: int| 0 <= j < i ==> !decisive()(findings@[j]),
            decreases candidates@.len() - i,
        {
            let c = &candidates[i];
            let found = regex_find(c.claim.action.as_str(), request.action.as_str());
            let outcome = if found && !c.constraints.as_str().is_empty() {
                Some(evaluate_with(c.constraints.as_str(), &ctx.properties, &self.functions))
            } else {
                None
            };
            proof {
                outcomes = outcomes.push(outcome);
            }
            let finding = finding_of(found, outcome);
            let stop = match &finding {
                Finding::NoMatch => false,
                Finding::Fails => false,
                _ => true,
            };
            findings.push(finding);
            if stop {
                proof {
                    lemma_first_index_is(findings@, decisive(), i as int);
                }
                let r = decide(&candidates, &findings);
                proof {
                    assert(Self::trace(
                        old(self).persistence_manager,
                        mid,
                        self.persistence_manager,
                        *request,
                        now,
                        vars,
                        principal,
                        candidates@,
                        outcomes,
                        findings@,
                        r,
                    ));
                }
                return r;
            }
            i += 1;
        }
        let r = decide(&candidates, &findings);
        proof {
            assert(Self::trace(
                old(self).persistence_manager,
                mid,
                self.persistence_manager,
                *request,
                now,
                vars,
                principal,
                candidates@,
                outcomes,
                findings@,
                r,
            ));
        }
        r
    }
}

} // verus!
