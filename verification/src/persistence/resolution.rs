//! Resolution: what the rows of the store give a principal. The license layer
//! of its organization, the grants that pass it, and the candidates that the
//! grants make for a request.

use vstd::prelude::*;

use crate::domain::models::{Claim, ClaimClaimable, ClaimResource, Group, LicensePolicy, Resource, Role};
use crate::persistence::claim_claimable_repository;
use crate::persistence::group_principal_repository::group_ids_of;
use crate::persistence::inheritance::{ancestor, reached, role_index};
use crate::persistence::models::{PClaimClaimable, PGroupPrincipal, PRoleRoleable};
use crate::persistence::role_roleable_repository::{role_ids_of_group, role_ids_of_principal};
use crate::persistence::table::{by_key, first_index, lemma_first_index_is, lemma_first_index_none, listed};
use crate::utils::text::same_text;

verus! {

/// The roles that a principal holds at `now` by a grant to itself or to a
/// group that it is a member of.
pub open spec fn holds_role(
    grants: Seq<PRoleRoleable>,
    memberships: Seq<PGroupPrincipal>,
    principal_id: Seq<char>,
    now: i64,
) -> spec_fn(Seq<char>) -> bool {
    |id: Seq<char>|
        {
            ||| listed(role_ids_of_principal(grants, principal_id, now), id)
            ||| exists|g: int|
                0 <= g < group_ids_of(memberships, principal_id).len() && listed(
                    #[trigger] role_ids_of_group(grants, group_ids_of(memberships, principal_id)[g]@, now),
                    id,
                )
        }
}

/// The groups among `groups` that `ids` name, in the order of `ids`; an
/// identifier that names none is passed over.
pub open spec fn found_groups(groups: Seq<Group>, ids: Seq<String>) -> Seq<Group>
    decreases ids.len(),
{
    if ids.len() == 0 {
        Seq::empty()
    } else {
        let rest = found_groups(groups, ids.drop_last());
        match first_index(groups, by_key::<Group>(ids.last()@)) {
            Some(i) => rest.push(groups[i]),
            None => rest,
        }
    }
}

/// The number of identifiers among `ids` that name no group of `groups`.
pub open spec fn missing_groups(groups: Seq<Group>, ids: Seq<String>) -> nat
    decreases ids.len(),
{
    if ids.len() == 0 {
        0
    } else {
        missing_groups(groups, ids.drop_last()) + if first_index(groups, by_key::<Group>(ids.last()@)) is None {
            1nat
        } else {
            0nat
        }
    }
}

/// The number of identifiers among `ids` that name no role of `roles`.
pub open spec fn missing_roles(roles: Seq<Role>, ids: Seq<String>) -> nat
    decreases ids.len(),
{
    if ids.len() == 0 {
        0
    } else {
        missing_roles(roles, ids.drop_last()) + if role_index(roles, ids.last()@) is None {
            1nat
        } else {
            0nat
        }
    }
}

/// The number of role grants to the groups `group_ids`, in force at `now`,
/// that name no role of `roles`.
pub open spec fn missing_roles_of_groups(
    roles: Seq<Role>,
    grants: Seq<PRoleRoleable>,
    group_ids: Seq<String>,
    now: i64,
) -> nat
    decreases group_ids.len(),
{
    if group_ids.len() == 0 {
        0
    } else {
        missing_roles_of_groups(roles, grants, group_ids.drop_last(), now) + missing_roles(
            roles,
            role_ids_of_group(grants, group_ids.last()@, now),
        )
    }
}

/// The claims that a license policy grants, in the order of its grants: for
/// each grant the claim of `claims` that it names, with the scope and the
/// constraints of the grant; a grant that names no claim is passed over.
pub open spec fn licensed(claims: Seq<Claim>, grants: Seq<PClaimClaimable>) -> Seq<ClaimClaimable>
    decreases grants.len(),
{
    if grants.len() == 0 {
        Seq::empty()
    } else {
        let rest = licensed(claims, grants.drop_last());
        let cc = grants.last();
        match first_index(claims, by_key::<Claim>(cc.claim_id@)) {
            Some(i) => rest.push(
                ClaimClaimable::LicensePolicy(claims[i], claims[i].realm_id, cc.scope, cc.claim_constraints),
            ),
            None => rest,
        }
    }
}

/// The number of grants among `grants` that name no claim of `claims`.
pub open spec fn unlicensed(claims: Seq<Claim>, grants: Seq<PClaimClaimable>) -> nat
    decreases grants.len(),
{
    if grants.len() == 0 {
        0
    } else {
        unlicensed(claims, grants.drop_last()) + if first_index(claims, by_key::<Claim>(grants.last().claim_id@))
            is None {
            1nat
        } else {
            0nat
        }
    }
}

/// The claims of a realm as they are open to an organization without a license
/// policy.
pub open spec fn ambient(claims: Seq<Claim>) -> Seq<ClaimClaimable> {
    claims.map_values(|c: Claim| ClaimClaimable::Realm(c, c.realm_id))
}

/// The license layer of an organization: what its first license policy in
/// force grants, or, where none is in force, every claim of the realm.
pub open spec fn org_claims_of(
    claims: Seq<Claim>,
    policies: Seq<LicensePolicy>,
    grants: Seq<PClaimClaimable>,
    now: i64,
) -> Seq<ClaimClaimable> {
    if policies.len() > 0 {
        licensed(claims, grants.filter(claim_claimable_repository::active_of_policy(policies[0].id@, now)))
    } else {
        ambient(claims)
    }
}

/// A licensed claim that carries a scope or constraints.
pub open spec fn scoped_entry(e: ClaimClaimable) -> bool {
    e is LicensePolicy && (e.scope().len() > 0 || e.constraints().len() > 0)
}

/// Whether the license layer tells scopes apart: some licensed claim carries a
/// scope or constraints.
pub open spec fn license_scoped(org_claims: Seq<ClaimClaimable>) -> bool {
    exists|i: int| 0 <= i < org_claims.len() && scoped_entry(#[trigger] org_claims[i])
}

/// Whether the license layer grants the claim `claim_id` under `scope`, by a
/// grant that carries a scope or constraints.
pub open spec fn license_allows(org_claims: Seq<ClaimClaimable>, claim_id: Seq<char>, scope: Seq<char>) -> bool {
    exists|i: int|
        0 <= i < org_claims.len() && scoped_entry(#[trigger] org_claims[i]) && org_claims[i].claim().id@
            == claim_id && org_claims[i].scope() == scope
}

/// The entries of the license layer for the claim `claim_id`.
pub open spec fn entry_for(claim_id: Seq<char>) -> spec_fn(ClaimClaimable) -> bool {
    |e: ClaimClaimable| (e is Realm || e is LicensePolicy) && e.claim().id@ == claim_id
}

/// The claim that the license layer has under `claim_id`.
pub open spec fn licensed_claim(org_claims: Seq<ClaimClaimable>, claim_id: Seq<char>) -> Option<Claim> {
    match first_index(org_claims, entry_for(claim_id)) {
        Some(i) => Some(org_claims[i].claim()),
        None => None,
    }
}

/// Whether a grant to a role or a principal stays inside the license layer:
/// the layer has the claim, and, where the layer tells scopes apart and the
/// grant carries a scope or constraints, the layer grants the claim under the
/// scope of the grant.
pub open spec fn grant_passes(org_claims: Seq<ClaimClaimable>, cc: PClaimClaimable) -> bool {
    &&& licensed_claim(org_claims, cc.claim_id@) is Some
    &&& !(license_scoped(org_claims) && (cc.scope@.len() > 0 || cc.claim_constraints@.len() > 0)
        && !license_allows(org_claims, cc.claim_id@, cc.scope@))
}

/// What a grant that passes gives its holder.
pub open spec fn granted_entry(
    org_claims: Seq<ClaimClaimable>,
    cc: PClaimClaimable,
    to_role: bool,
) -> ClaimClaimable {
    let claim = licensed_claim(org_claims, cc.claim_id@)->0;
    if to_role {
        ClaimClaimable::Role(claim, claim.realm_id, cc.claimable_id, cc.scope, cc.claim_constraints)
    } else {
        ClaimClaimable::Principal(claim, claim.realm_id, cc.claimable_id, cc.scope, cc.claim_constraints)
    }
}

/// What the grants `grants` give their holders, in their order; a grant that
/// does not pass is passed over.
pub open spec fn granted(
    org_claims: Seq<ClaimClaimable>,
    grants: Seq<PClaimClaimable>,
    to_role: bool,
) -> Seq<ClaimClaimable>
    decreases grants.len(),
{
    if grants.len() == 0 {
        Seq::empty()
    } else {
        let rest = granted(org_claims, grants.drop_last(), to_role);
        if grant_passes(org_claims, grants.last()) {
            rest.push(granted_entry(org_claims, grants.last(), to_role))
        } else {
            rest
        }
    }
}

/// The number of grants among `grants` that do not pass.
pub open spec fn refused(org_claims: Seq<ClaimClaimable>, grants: Seq<PClaimClaimable>) -> nat
    decreases grants.len(),
{
    if grants.len() == 0 {
        0
    } else {
        refused(org_claims, grants.drop_last()) + if grant_passes(org_claims, grants.last()) {
            0nat
        } else {
            1nat
        }
    }
}

/// Whether the license layer lets a request for `scope` through: it licenses
/// some claim under that scope, or it is the open layer of an organization
/// without a license policy.
pub open spec fn license_gate(org_claims: Seq<ClaimClaimable>, scope: Seq<char>) -> bool {
    exists|i: int|
        0 <= i < org_claims.len() && gate_entry(#[trigger] org_claims[i], scope)
}

/// An entry of the license layer that lets a request for `scope` through.
pub open spec fn gate_entry(e: ClaimClaimable, scope: Seq<char>) -> bool {
    (e is LicensePolicy && e.scope() == scope) || e is Realm
}

/// Whether the grant `e` speaks of the resource `resource`, which is named
/// `resource_name`, under `scope`.
pub open spec fn is_candidate(
    e: ClaimClaimable,
    resource: Resource,
    resource_name: Seq<char>,
    scope: Seq<char>,
) -> bool {
    e.claim().resource_id@ == resource.id@ && resource.resource_name@ == resource_name && e.scope() == scope
}

/// The candidate that a grant makes for a resource; `blank` is the empty text
/// that stands for the scope and the constraints of a claim of the realm.
pub open spec fn candidate_of(e: ClaimClaimable, resource: Resource, blank: String) -> ClaimResource {
    match e {
        ClaimClaimable::Realm(c, _) => ClaimResource { claim: c, scope: blank, constraints: blank, resource },
        ClaimClaimable::LicensePolicy(c, _, s, k) => ClaimResource { claim: c, scope: s, constraints: k, resource },
        ClaimClaimable::Role(c, _, _, s, k) => ClaimResource { claim: c, scope: s, constraints: k, resource },
        ClaimClaimable::Principal(c, _, _, s, k) => ClaimResource { claim: c, scope: s, constraints: k, resource },
    }
}

/// The candidates that the grants `grants` make for one resource, in their
/// order.
pub open spec fn candidates_for(
    grants: Seq<ClaimClaimable>,
    resource: Resource,
    resource_name: Seq<char>,
    scope: Seq<char>,
    blank: String,
) -> Seq<ClaimResource>
    decreases grants.len(),
{
    if grants.len() == 0 {
        Seq::empty()
    } else {
        let rest = candidates_for(grants.drop_last(), resource, resource_name, scope, blank);
        if is_candidate(grants.last(), resource, resource_name, scope) {
            rest.push(candidate_of(grants.last(), resource, blank))
        } else {
            rest
        }
    }
}

/// The candidates that the grants make for the resources, resource by resource
/// in their order, and for each resource in the order of the grants.
pub open spec fn candidates(
    resources: Seq<Resource>,
    grants: Seq<ClaimClaimable>,
    resource_name: Seq<char>,
    scope: Seq<char>,
    blank: String,
) -> Seq<ClaimResource>
    decreases resources.len(),
{
    if resources.len() == 0 {
        Seq::empty()
    } else {
        candidates(resources.drop_last(), grants, resource_name, scope, blank) + candidates_for(
            grants,
            resources.last(),
            resource_name,
            scope,
            blank,
        )
    }
}

/// The claims of `claims` that the grants `grants` name, in the order of the
/// grants.
pub open spec fn named_claims(claims: Seq<Claim>, grants: Seq<PClaimClaimable>) -> Seq<Claim>
    decreases grants.len(),
{
    if grants.len() == 0 {
        Seq::empty()
    } else {
        let rest = named_claims(claims, grants.drop_last());
        match first_index(claims, by_key::<Claim>(grants.last().claim_id@)) {
            Some(i) => rest.push(claims[i]),
            None => rest,
        }
    }
}

/// A text is in a sequence with one more text exactly when it is in the
/// sequence or is that text.
pub proof fn lemma_pushed_contains(texts: Seq<Seq<char>>, last: Seq<char>)
    ensures
        forall|id: Seq<char>| #[trigger] texts.push(last).contains(id) <==> texts.contains(id) || id == last,
{
    let after = texts.push(last);
    assert forall|id: Seq<char>| #[trigger] after.contains(id) <==> texts.contains(id) || id == last by {
        if after.contains(id) {
            let i = choose|i: int| 0 <= i < after.len() && after[i] == id;
            if i < texts.len() {
                assert(texts[i] == id);
            }
        }
        if texts.contains(id) {
            let i = choose|i: int| 0 <= i < texts.len() && texts[i] == id;
            assert(after[i] == id);
        }
        if id == last {
            assert(after[texts.len() as int] == id);
        }
    }
}

/// A text is listed among the first `i + 1` exactly when it is listed among
/// the first `i` or is the one at `i`.
pub proof fn lemma_listed_take(ids: Seq<String>, i: int)
    requires
        0 <= i < ids.len(),
    ensures
        forall|id: Seq<char>| #[trigger] listed(ids.take(i + 1), id) <==> listed(ids.take(i), id) || id == ids[i]@,
{
    let more = ids.take(i + 1);
    let fewer = ids.take(i);
    assert forall|id: Seq<char>| #[trigger] listed(more, id) <==> listed(fewer, id) || id == ids[i]@ by {
        if listed(more, id) {
            let k = choose|k: int| 0 <= k < more.len() && (#[trigger] more[k])@ == id;
            if k < i {
                assert(fewer[k]@ == id);
            }
        }
        if listed(fewer, id) {
            let k = choose|k: int| 0 <= k < fewer.len() && (#[trigger] fewer[k])@ == id;
            assert(more[k]@ == id);
        }
        if id == ids[i]@ {
            assert(more[i]@ == id);
        }
    }
}

/// What is reached depends on the starting roles only through which they are.
pub proof fn lemma_reached_same(
    roles: Seq<Role>,
    a: spec_fn(Seq<char>) -> bool,
    b: spec_fn(Seq<char>) -> bool,
    id: Seq<char>,
)
    requires
        forall|s: Seq<char>| a(s) <==> #[trigger] b(s),
    ensures
        reached(roles, a, id) <==> reached(roles, b, id),
{
    if reached(roles, a, id) {
        let (s, k) = choose|s: Seq<char>, k: nat| a(s) && #[trigger] ancestor(roles, s, k) == Some(id);
        assert(b(s));
    }
    if reached(roles, b, id) {
        let (s, k) = choose|s: Seq<char>, k: nat| b(s) && #[trigger] ancestor(roles, s, k) == Some(id);
        assert(a(s));
    }
}

/// The identifiers of `roles`, in their order.
pub(crate) fn ids_of_roles(roles: &Vec<Role>) -> (out: Vec<String>)
    ensures
        out@ == roles@.map_values(|r: Role| r.id),
{
    let mut out: Vec<String> = Vec::new();
    let mut i: usize = 0;
    while i < roles.len()
        invariant
            i <= roles@.len(),
            out@ == roles@.take(i as int).map_values(|r: Role| r.id),
        decreases roles@.len() - i,
    {
        out.push(roles[i].id.clone());
        proof {
            assert(out@ =~= roles@.take(i + 1).map_values(|r: Role| r.id));
        }
        i += 1;
    }
    proof {
        assert(roles@.take(i as int) =~= roles@);
    }
    out
}

/// The identifiers of the resources that `claims` speak of, in their order.
pub(crate) fn resource_ids_of(claims: &Vec<ClaimClaimable>) -> (out: Vec<String>)
    ensures
        out@ == claims@.map_values(|e: ClaimClaimable| e.claim().resource_id),
{
    let mut out: Vec<String> = Vec::new();
    let mut i: usize = 0;
    while i < claims.len()
        invariant
            i <= claims@.len(),
            out@ == claims@.take(i as int).map_values(|e: ClaimClaimable| e.claim().resource_id),
        decreases claims@.len() - i,
    {
        out.push(claims[i].get_claim().resource_id.clone());
        proof {
            assert(out@ =~= claims@.take(i + 1).map_values(|e: ClaimClaimable| e.claim().resource_id));
        }
        i += 1;
    }
    proof {
        assert(claims@.take(i as int) =~= claims@);
    }
    out
}

/// Whether the entry is a licensed claim that carries a scope or constraints.
pub(crate) fn is_scoped_entry(e: &ClaimClaimable) -> (b: bool)
    ensures
        b == scoped_entry(*e),
{
    match e {
        ClaimClaimable::LicensePolicy(_, _, scope, constraints) => !scope.as_str().is_empty()
            || !constraints.as_str().is_empty(),
        _ => false,
    }
}

/// Whether the license layer tells scopes apart.
pub(crate) fn is_license_scoped(layer: &Vec<ClaimClaimable>) -> (b: bool)
    ensures
        b == license_scoped(layer@),
{
    let mut i: usize = 0;
    while i < layer.len()
        invariant
            i <= layer@.len(),
            forall|j: int| 0 <= j < i ==> !scoped_entry(#[trigger] layer@[j]),
        decreases layer@.len() - i,
    {
        if is_scoped_entry(&layer[i]) {
            return true;
        }
        i += 1;
    }
    false
}

/// Whether the license layer grants the claim under the scope, by a grant that
/// carries a scope or constraints.
pub(crate) fn does_license_allow(layer: &Vec<ClaimClaimable>, claim_id: &str, scope: &str) -> (b: bool)
    ensures
        b == license_allows(layer@, claim_id@, scope@),
{
    let mut i: usize = 0;
    while i < layer.len()
        invariant
            i <= layer@.len(),
            forall|j: int|
                0 <= j < i ==> !(scoped_entry(#[trigger] layer@[j]) && layer@[j].claim().id@ == claim_id@
                    && layer@[j].scope() == scope@),
        decreases layer@.len() - i,
    {
        if is_scoped_entry(&layer[i]) && same_text(layer[i].get_claim().id.as_str(), claim_id) && same_text(
            layer[i].get_scope(),
            scope,
        ) {
            return true;
        }
        i += 1;
    }
    false
}

/// The index of the first entry of the license layer for the claim.
pub(crate) fn find_licensed_claim(layer: &Vec<ClaimClaimable>, claim_id: &str) -> (r: Option<usize>)
    ensures
        match r {
            Some(i) => first_index(layer@, entry_for(claim_id@)) == Some(i as int),
            None => first_index(layer@, entry_for(claim_id@)) is None,
        },
{
    let mut i: usize = 0;
    while i < layer.len()
        invariant
            i <= layer@.len(),
            forall|j: int| 0 <= j < i ==> !entry_for(claim_id@)(layer@[j]),
        decreases layer@.len() - i,
    {
        let of_layer = match &layer[i] {
            ClaimClaimable::Realm(_, _) => true,
            ClaimClaimable::LicensePolicy(_, _, _, _) => true,
            _ => false,
        };
        if of_layer && same_text(layer[i].get_claim().id.as_str(), claim_id) {
            proof {
                lemma_first_index_is(layer@, entry_for(claim_id@), i as int);
            }
            return Some(i);
        }
        i += 1;
    }
    proof {
        lemma_first_index_none(layer@, entry_for(claim_id@));
    }
    None
}

/// Whether the license layer lets a request for `scope` through.
pub(crate) fn passes_gate(layer: &Vec<ClaimClaimable>, scope: &str) -> (b: bool)
    ensures
        b == license_gate(layer@, scope@),
{
    let mut i: usize = 0;
    while i < layer.len()
        invariant
            i <= layer@.len(),
            forall|j: int| 0 <= j < i ==> !gate_entry(#[trigger] layer@[j], scope@),
        decreases layer@.len() - i,
    {
        let open = match &layer[i] {
            ClaimClaimable::LicensePolicy(_, _, s, _) => same_text(s.as_str(), scope),
            ClaimClaimable::Realm(_, _) => true,
            _ => false,
        };
        if open {
            return true;
        }
        i += 1;
    }
    false
}

/// The candidates that the grants make for one resource.
pub(crate) fn candidates_of_resource(
    grants: &Vec<ClaimClaimable>,
    resource: &Resource,
    resource_name: &str,
    scope: &str,
    blank: &String,
) -> (out: Vec<ClaimResource>)
    ensures
        out@ == candidates_for(grants@, *resource, resource_name@, scope@, *blank),
{
    let mut out: Vec<ClaimResource> = Vec::new();
    let mut i: usize = 0;
    proof {
        assert(grants@.take(0) =~= Seq::<ClaimClaimable>::empty());
    }
    while i < grants.len()
        invariant
            i <= grants@.len(),
            out@ == candidates_for(grants@.take(i as int), *resource, resource_name@, scope@, *blank),
        decreases grants@.len() - i,
    {
        proof {
            assert(grants@.take(i + 1).drop_last() =~= grants@.take(i as int));
        }
        let e = &grants[i];
        if same_text(e.get_claim().resource_id.as_str(), resource.id.as_str()) && same_text(
            resource.resource_name.as_str(),
            resource_name,
        ) && same_text(e.get_scope(), scope) {
            let (grant_scope, grant_constraints) = match e {
                ClaimClaimable::Realm(_, _) => (blank.clone(), blank.clone()),
                ClaimClaimable::LicensePolicy(_, _, s, k) => (s.clone(), k.clone()),
                ClaimClaimable::Role(_, _, _, s, k) => (s.clone(), k.clone()),
                ClaimClaimable::Principal(_, _, _, s, k) => (s.clone(), k.clone()),
            };
            out.push(ClaimResource::new(e.get_claim().clone(), grant_scope, grant_constraints, resource.clone()));
        }
        i += 1;
    }
    proof {
        assert(grants@.take(i as int) =~= grants@);
    }
    out
}

/// A grant that passes gives its holder what it grants.
pub proof fn lemma_passing_grant_is_granted(
    layer: Seq<ClaimClaimable>,
    grants: Seq<PClaimClaimable>,
    to_role: bool,
    i: int,
)
    requires
        0 <= i < grants.len(),
        grant_passes(layer, grants[i]),
    ensures
        granted(layer, grants, to_role).contains(granted_entry(layer, grants[i], to_role)),
    decreases grants.len(),
{
    let all = granted(layer, grants, to_role);
    if i == grants.len() - 1 {
        assert(all[all.len() - 1] == granted_entry(layer, grants[i], to_role));
    } else {
        lemma_passing_grant_is_granted(layer, grants.drop_last(), to_role, i);
        let rest = granted(layer, grants.drop_last(), to_role);
        let k = choose|k: int| 0 <= k < rest.len() && rest[k] == granted_entry(layer, grants[i], to_role);
        assert(all[k] == rest[k]);
    }
}

/// A dangling claim grant is passed over: a grant whose claim the license
/// layer does not have gives nothing, and counts as one refused grant.
pub proof fn lemma_dangling_grant_is_skipped(
    layer: Seq<ClaimClaimable>,
    grants: Seq<PClaimClaimable>,
    dangling: PClaimClaimable,
    to_role: bool,
)
    requires
        licensed_claim(layer, dangling.claim_id@) is None,
    ensures
        granted(layer, grants.push(dangling), to_role) == granted(layer, grants, to_role),
        refused(layer, grants.push(dangling)) == refused(layer, grants) + 1,
{
    assert(grants.push(dangling).drop_last() =~= grants);
}

/// A dangling role grant brings nothing: from a role that does not exist no
/// role is reached.
pub proof fn lemma_missing_role_brings_nothing(roles: Seq<Role>, id: Seq<char>, k: nat)
    requires
        role_index(roles, id) is None,
    ensures
        ancestor(roles, id, k) is None,
    decreases k,
{
    if k > 0 {
        lemma_missing_role_brings_nothing(roles, id, (k - 1) as nat);
    }
}

/// What the grants to roles and principals give are grants to roles and
/// principals.
pub proof fn lemma_granted_are_held(layer: Seq<ClaimClaimable>, grants: Seq<PClaimClaimable>, to_role: bool, i: int)
    requires
        0 <= i < granted(layer, grants, to_role).len(),
    ensures
        granted(layer, grants, to_role)[i] is Role || granted(layer, grants, to_role)[i] is Principal,
    decreases grants.len(),
{
    if grants.len() > 0 {
        let rest = granted(layer, grants.drop_last(), to_role);
        if i < rest.len() {
            lemma_granted_are_held(layer, grants.drop_last(), to_role, i);
        }
    }
}

/// The candidates that grants to roles and principals make do not depend on
/// the text that stands for the empty scope of a claim of the realm.
pub proof fn lemma_candidates_of_held(
    resources: Seq<Resource>,
    grants: Seq<ClaimClaimable>,
    resource_name: Seq<char>,
    scope: Seq<char>,
    a: String,
    b: String,
)
    requires
        forall|i: int| 0 <= i < grants.len() ==> (#[trigger] grants[i]) is Role || grants[i] is Principal,
    ensures
        candidates(
            resources,
            grants,
            resource_name,
            scope,
            a,
        ) == candidates(resources, grants, resource_name, scope, b),
    decreases resources.len(),
{
    if resources.len() > 0 {
        lemma_candidates_of_held(resources.drop_last(), grants, resource_name, scope, a, b);
        lemma_candidates_for_held(grants, resources.last(), resource_name, scope, a, b);
    }
}

proof fn lemma_candidates_for_held(
    grants: Seq<ClaimClaimable>,
    resource: Resource,
    resource_name: Seq<char>,
    scope: Seq<char>,
    a: String,
    b: String,
)
    requires
        forall|i: int| 0 <= i < grants.len() ==> (#[trigger] grants[i]) is Role || grants[i] is Principal,
    ensures
        candidates_for(grants, resource, resource_name, scope, a) == candidates_for(
            grants,
            resource,
            resource_name,
            scope,
            b,
        ),
    decreases grants.len(),
{
    if grants.len() > 0 {
        assert(forall|i: int| 0 <= i < grants.len() - 1 ==> grants.drop_last()[i] == grants[i]);
        lemma_candidates_for_held(grants.drop_last(), resource, resource_name, scope, a, b);
        assert(grants.last() == grants[grants.len() - 1]);
    }
}

} // verus!
