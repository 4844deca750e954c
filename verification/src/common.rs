//! Vocabulary shared by every part of the engine: discriminators, statuses,
//! sample resource and action kinds, context values, the security context and
//! the error taxonomy.

use vstd::prelude::*;
use vstd::string::*;

use crate::utils::evaluator::{bound, evaluated, no_variables};
use crate::utils::text::same_text;

verus! {

/// Discriminators used for association rows and claim effects.
#[derive(Debug, Clone, Copy, PartialEq, Eq, Structural)]
pub enum Constants {
    Principal,
    Role,
    Group,
    LicensePolicy,
    Allow,
    Deny,
}

impl Constants {
    /// The text under which the discriminator is stored.
    pub open spec fn name(self) -> Seq<char> {
        match self {
            Constants::Principal => "Principal"@,
            Constants::Role => "Role"@,
            Constants::Group => "Group"@,
            Constants::LicensePolicy => "LicensePolicy"@,
            Constants::Allow => "Allow"@,
            Constants::Deny => "Deny"@,
        }
    }

    pub fn to_string(&self) -> (r: String)
        ensures
            r@ == self.name(),
    {
        match self {
            Constants::Principal => "Principal".to_string(),
            Constants::Role => "Role".to_string(),
            Constants::Group => "Group".to_string(),
            Constants::LicensePolicy => "LicensePolicy".to_string(),
            Constants::Allow => "Allow".to_string(),
            Constants::Deny => "Deny".to_string(),
        }
    }
}

/// Life-cycle status of a resource instance.
#[allow(non_camel_case_types)]
#[derive(Debug, Clone, Copy, PartialEq, Eq, Structural)]
pub enum Status {
    INFLIGHT,
    PENDING,
    FAILED,
    COMPLETED,
    UNKNOWN,
}

impl Status {
    /// The text under which the status is stored.
    pub open spec fn name(self) -> Seq<char> {
        match self {
            Status::INFLIGHT => "INFLIGHT"@,
            Status::PENDING => "PENDING"@,
            Status::FAILED => "FAILED"@,
            Status::COMPLETED => "COMPLETED"@,
            Status::UNKNOWN => "UNKNOWN"@,
        }
    }

    pub fn to_string(&self) -> (r: String)
        ensures
            r@ == self.name(),
    {
        match self {
            Status::INFLIGHT => "INFLIGHT".to_string(),
            Status::PENDING => "PENDING".to_string(),
            Status::FAILED => "FAILED".to_string(),
            Status::COMPLETED => "COMPLETED".to_string(),
            Status::UNKNOWN => "UNKNOWN".to_string(),
        }
    }
}

/// Sample kinds of protected resources.
#[derive(Debug, Clone, Copy, PartialEq, Eq, Structural)]
pub enum ResourceType {
    Api,
    Method,
    Data,
    Feature,
    Report,
    Config,
    Job,
    App,
    Network,
    Device,
}

impl ResourceType {
    pub open spec fn name(self) -> Seq<char> {
        match self {
            ResourceType::Api => "Api"@,
            ResourceType::Method => "Method"@,
            ResourceType::Data => "Data"@,
            ResourceType::Feature => "Feature"@,
            ResourceType::Report => "Report"@,
            ResourceType::Config => "Config"@,
            ResourceType::Job => "Job"@,
            ResourceType::App => "App"@,
            ResourceType::Network => "Network"@,
            ResourceType::Device => "Device"@,
        }
    }

    pub fn to_string(&self) -> (r: String)
        ensures
            r@ == self.name(),
    {
        match self {
            ResourceType::Api => "Api".to_string(),
            ResourceType::Method => "Method".to_string(),
            ResourceType::Data => "Data".to_string(),
            ResourceType::Feature => "Feature".to_string(),
            ResourceType::Report => "Report".to_string(),
            ResourceType::Config => "Config".to_string(),
            ResourceType::Job => "Job".to_string(),
            ResourceType::App => "App".to_string(),
            ResourceType::Network => "Network".to_string(),
            ResourceType::Device => "Device".to_string(),
        }
    }
}

/// Sample actions that a request may name.
#[allow(non_camel_case_types)]
#[derive(Debug, Clone, Copy, PartialEq, Eq, Structural)]
pub enum ActionType {
    READ,
    VIEW,
    UPDATE,
    DELETE,
    CREATE,
    APPROVE,
    SUBMIT,
    UPLOAD,
    DOWNLOAD,
    BUILD,
    EXECUTE,
}

impl ActionType {
    pub open spec fn name(self) -> Seq<char> {
        match self {
            ActionType::READ => "READ"@,
            ActionType::VIEW => "VIEW"@,
            ActionType::UPDATE => "UPDATE"@,
            ActionType::DELETE => "DELETE"@,
            ActionType::CREATE => "CREATE"@,
            ActionType::APPROVE => "APPROVE"@,
            ActionType::SUBMIT => "SUBMIT"@,
            ActionType::UPLOAD => "UPLOAD"@,
            ActionType::DOWNLOAD => "DOWNLOAD"@,
            ActionType::BUILD => "BUILD"@,
            ActionType::EXECUTE => "EXECUTE"@,
        }
    }

    pub fn to_string(&self) -> (r: String)
        ensures
            r@ == self.name(),
    {
        match self {
            ActionType::READ => "READ".to_string(),
            ActionType::VIEW => "VIEW".to_string(),
            ActionType::UPDATE => "UPDATE".to_string(),
            ActionType::DELETE => "DELETE".to_string(),
            ActionType::CREATE => "CREATE".to_string(),
            ActionType::APPROVE => "APPROVE".to_string(),
            ActionType::SUBMIT => "SUBMIT".to_string(),
            ActionType::UPLOAD => "UPLOAD".to_string(),
            ActionType::DOWNLOAD => "DOWNLOAD".to_string(),
            ActionType::BUILD => "BUILD".to_string(),
            ActionType::EXECUTE => "EXECUTE".to_string(),
        }
    }
}

/// A value of the context bag against which constraints are evaluated. A
/// floating-point value is carried as the 64 bits of its IEEE 754 form.
#[derive(Debug, PartialEq)]
pub enum ValueWrapper {
    Bool(bool),
    String(String),
    Int(i64),
    Float(u64),
}

impl Clone for ValueWrapper {
    fn clone(&self) -> (r: Self)
        ensures
            r == *self,
    {
        match self {
            ValueWrapper::Bool(b) => ValueWrapper::Bool(*b),
            ValueWrapper::String(s) => ValueWrapper::String(s.clone()),
            ValueWrapper::Int(i) => ValueWrapper::Int(*i),
            ValueWrapper::Float(bits) => ValueWrapper::Float(*bits),
        }
    }
}

/// The kinds of failure that the engine reports, each with its message.
#[derive(Debug, PartialEq)]
pub enum RbacError {
    Duplicate(String),
    NotFound(String),
    Persistence(String),
    Security(String),
    Evaluation(String),
    QuotaExceeded(String),
    Custom(String),
}

impl RbacError {
    /// The message carried by the error, whatever its kind.
    pub open spec fn message(&self) -> Seq<char> {
        match self {
            RbacError::Duplicate(e) => e@,
            RbacError::NotFound(e) => e@,
            RbacError::Persistence(e) => e@,
            RbacError::Security(e) => e@,
            RbacError::Evaluation(e) => e@,
            RbacError::QuotaExceeded(e) => e@,
            RbacError::Custom(e) => e@,
        }
    }

    pub fn description(&self) -> (r: &str)
        ensures
            r@ == self.message(),
    {
        match self {
            RbacError::Duplicate(e) => e.as_str(),
            RbacError::NotFound(e) => e.as_str(),
            RbacError::Persistence(e) => e.as_str(),
            RbacError::Security(e) => e.as_str(),
            RbacError::Evaluation(e) => e.as_str(),
            RbacError::QuotaExceeded(e) => e.as_str(),
            RbacError::Custom(e) => e.as_str(),
        }
    }

    pub fn to_string(&self) -> (r: String)
        ensures
            r@ == self.message(),
    {
        self.description().to_string()
    }
}

impl Clone for RbacError {
    fn clone(&self) -> (r: Self)
        ensures
            r == *self,
    {
        match self {
            RbacError::Duplicate(e) => RbacError::Duplicate(e.clone()),
            RbacError::NotFound(e) => RbacError::NotFound(e.clone()),
            RbacError::Persistence(e) => RbacError::Persistence(e.clone()),
            RbacError::Security(e) => RbacError::Security(e.clone()),
            RbacError::Evaluation(e) => RbacError::Evaluation(e.clone()),
            RbacError::QuotaExceeded(e) => RbacError::QuotaExceeded(e.clone()),
            RbacError::Custom(e) => RbacError::Custom(e.clone()),
        }
    }
}

/// One named value of the context bag.
#[derive(Debug, PartialEq)]
pub struct Property {
    pub name: String,
    pub value: ValueWrapper,
}

impl Clone for Property {
    fn clone(&self) -> (r: Self)
        ensures
            r == *self,
    {
        Property { name: self.name.clone(), value: self.value.clone() }
    }
}

/// The first index at which `props` holds a value under `name`, if any.
pub open spec fn property_index(props: Seq<Property>, name: Seq<char>) -> Option<int>
    decreases props.len(),
{
    if props.len() == 0 {
        None
    } else {
        match property_index(props.drop_last(), name) {
            Some(i) => Some(i),
            None => if props.last().name@ == name {
                Some(props.len() - 1)
            } else {
                None
            },
        }
    }
}

/// What the index found by `property_index` is: the first one with the name.
pub proof fn lemma_property_index(props: Seq<Property>, name: Seq<char>)
    ensures
        match property_index(props, name) {
            Some(i) => 0 <= i < props.len() && props[i].name@ == name && forall|j: int|
                0 <= j < i ==> props[j].name@ != name,
            None => forall|j: int| 0 <= j < props.len() ==> props[j].name@ != name,
        },
    decreases props.len(),
{
    if props.len() > 0 {
        lemma_property_index(props.drop_last(), name);
        assert(forall|j: int| 0 <= j < props.len() - 1 ==> props.drop_last()[j] == props[j]);
    }
}

/// Who acts, in which realm, and with which context values.
#[derive(Debug, PartialEq)]
pub struct SecurityContext {
    pub realm_id: String,
    pub principal_id: String,
    pub properties: Vec<Property>,
}

impl crate::persistence::table::Record for Property {
    fn copy(&self) -> (r: Self) {
        self.clone()
    }
}

impl Clone for SecurityContext {
    fn clone(&self) -> (r: Self)
        ensures
            r.realm_id == self.realm_id,
            r.principal_id == self.principal_id,
            r.properties@ == self.properties@,
    {
        SecurityContext {
            realm_id: self.realm_id.clone(),
            principal_id: self.principal_id.clone(),
            properties: crate::persistence::table::copy_all(&self.properties),
        }
    }
}

impl SecurityContext {
    /// A context for `principal_id` acting in `realm_id`, with no values yet.
    pub fn new(realm_id: &str, principal_id: &str) -> (ctx: SecurityContext)
        ensures
            ctx.realm_id@ == realm_id@,
            ctx.principal_id@ == principal_id@,
            ctx.properties@ == Seq::<Property>::empty(),
    {
        SecurityContext {
            realm_id: realm_id.to_string(),
            principal_id: principal_id.to_string(),
            properties: Vec::new(),
        }
    }

    /// Binds `name` to `val`: a value already bound under that name is
    /// replaced where it stands, a new name is appended.
    pub fn add(&mut self, name: &str, val: ValueWrapper)
        ensures
            final(self).realm_id == old(self).realm_id,
            final(self).principal_id == old(self).principal_id,
            match property_index(old(self).properties@, name@) {
                Some(i) => {
                    &&& final(self).properties@.len() == old(self).properties@.len()
                    &&& final(self).properties@[i].name@ == name@
                    &&& final(self).properties@[i].value == val
                    &&& forall|j: int|
                        0 <= j < old(self).properties@.len() && j != i ==> final(self).properties@[j]
                            == old(self).properties@[j]
                },
                None => {
                    &&& final(self).properties@.len() == old(self).properties@.len() + 1
                    &&& final(self).properties@.last().name@ == name@
                    &&& final(self).properties@.last().value == val
                    &&& final(self).properties@.drop_last() == old(self).properties@
                },
            },
    {
        let mut i: usize = 0;
        while i < self.properties.len()
            invariant
                i <= self.properties@.len(),
                *self == *old(self),
                forall|j: int| 0 <= j < i ==> self.properties@[j].name@ != name@,
            decreases self.properties@.len() - i,
        {
            if same_text(self.properties[i].name.as_str(), name) {
                proof {
                    lemma_property_index(self.properties@, name@);
                }
                let entry = Property { name: name.to_string(), value: val };
                self.properties.set(i, entry);
                return ;
            }
            i += 1;
        }
        proof {
            lemma_property_index(self.properties@, name@);
        }
        self.properties.push(Property { name: name.to_string(), value: val });
        proof {
            assert(self.properties@.drop_last() =~= old(self).properties@);
        }
    }

    /// Evaluates a constraint against the values of this context, with the
    /// built-in functions. The outcome depends on the clock. Whatever it is, a
    /// boolean outcome is the answer and any other is an error of kind
    /// `Evaluation`; values that cannot all be bound, because one name stands
    /// for values of two kinds, give such an error without an evaluation.
    pub fn evaluate(&self, expr: &str) -> (r: Result<bool, RbacError>)
        ensures
            evaluated(r, expr@, self.properties@, no_variables()),
            r is Err ==> r->Err_0 is Evaluation,
            bound(no_variables(), self.properties@) is None ==> r is Err,
    {
        crate::utils::evaluator::evaluate(expr, &self.properties)
    }

    /// A short text that names the realm and the acting principal, for the
    /// audit trail.
    pub open spec fn description(&self) -> Seq<char> {
        self.realm_id@ + ":"@ + self.principal_id@
    }

    pub fn describe(&self) -> (r: String)
        ensures
            r@ == self.description(),
    {
        self.realm_id.clone().concat(":").concat(self.principal_id.as_str())
    }
}

} // verus!
