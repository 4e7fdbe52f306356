//! The five independent dimensions of an execution result.
use vstd::prelude::*;

verus! {

/// What policy decided.
#[derive(Clone, Copy, Debug, PartialEq, Eq, Structural)]
pub enum Authorization {
    Allow,
    Deny,
}

/// What verifying the authorization evidence found.
#[derive(Clone, Copy, Debug, PartialEq, Eq, Structural)]
pub enum Verification {
    Valid,
    Invalid,
    Stale,
    Unverifiable,
}

/// Whether the boundary can perform the operation.
#[derive(Clone, Copy, Debug, PartialEq, Eq, Structural)]
pub enum Capability {
    Can,
    Cannot,
    Unknown,
}

/// Whether the outcome is enforced or only advisory.
#[derive(Clone, Copy, Debug, PartialEq, Eq, Structural)]
pub enum Enforcement {
    Advisory,
    Enforced,
}

/// Whether the operation ran.
#[derive(Clone, Copy, Debug, PartialEq, Eq, Structural)]
pub enum Execution {
    Execute,
    Block,
}

/// The text a authorization is reported as.
pub open spec fn authorization_text(x: Authorization) -> Seq<char> {
    match x {
        Authorization::Allow => "ALLOW"@,
        Authorization::Deny => "DENY"@,
    }
}

impl Authorization {
    /// The text this is reported as (see `authorization_text`).
    pub fn text(&self) -> (r: &'static str)
        ensures
            r@ == authorization_text(*self),
    {
        match self {
            Authorization::Allow => "ALLOW",
            Authorization::Deny => "DENY",
        }
    }
}

/// The text a verification is reported as.
pub open spec fn verification_text(x: Verification) -> Seq<char> {
    match x {
        Verification::Valid => "VALID"@,
        Verification::Invalid => "INVALID"@,
        Verification::Stale => "STALE"@,
        Verification::Unverifiable => "UNVERIFIABLE"@,
    }
}

impl Verification {
    /// The text this is reported as (see `verification_text`).
    pub fn text(&self) -> (r: &'static str)
        ensures
            r@ == verification_text(*self),
    {
        match self {
            Verification::Valid => "VALID",
            Verification::Invalid => "INVALID",
            Verification::Stale => "STALE",
            Verification::Unverifiable => "UNVERIFIABLE",
        }
    }
}

/// The text a capability is reported as.
pub open spec fn capability_text(x: Capability) -> Seq<char> {
    match x {
        Capability::Can => "CAN"@,
        Capability::Cannot => "CANNOT"@,
        Capability::Unknown => "UNKNOWN"@,
    }
}

impl Capability {
    /// The text this is reported as (see `capability_text`).
    pub fn text(&self) -> (r: &'static str)
        ensures
            r@ == capability_text(*self),
    {
        match self {
            Capability::Can => "CAN",
            Capability::Cannot => "CANNOT",
            Capability::Unknown => "UNKNOWN",
        }
    }
}

/// The text a enforcement is reported as.
pub open spec fn enforcement_text(x: Enforcement) -> Seq<char> {
    match x {
        Enforcement::Advisory => "ADVISORY"@,
        Enforcement::Enforced => "ENFORCED"@,
    }
}

impl Enforcement {
    /// The text this is reported as (see `enforcement_text`).
    pub fn text(&self) -> (r: &'static str)
        ensures
            r@ == enforcement_text(*self),
    {
        match self {
            Enforcement::Advisory => "ADVISORY",
            Enforcement::Enforced => "ENFORCED",
        }
    }
}

/// The text a execution is reported as.
pub open spec fn execution_text(x: Execution) -> Seq<char> {
    match x {
        Execution::Execute => "EXECUTE"@,
        Execution::Block => "BLOCK"@,
    }
}

impl Execution {
    /// The text this is reported as (see `execution_text`).
    pub fn text(&self) -> (r: &'static str)
        ensures
            r@ == execution_text(*self),
    {
        match self {
            Execution::Execute => "EXECUTE",
            Execution::Block => "BLOCK",
        }
    }
}

/// The result of one mediated operation, each dimension reported apart.
#[derive(Clone, Debug)]
pub struct ExecutionResult {
    schema: String,
    authorization: Authorization,
    verification: Verification,
    capability: Capability,
    enforcement: Enforcement,
    execution: Execution,
    reason: String,
}

/// A result as its dimensions: schema, authorization, verification,
/// capability, enforcement, execution and reason.
pub type ResultView = (Seq<char>, Authorization, Verification, Capability, Enforcement, Execution, Seq<char>);

impl View for ExecutionResult {
    type V = ResultView;

    closed spec fn view(&self) -> ResultView {
        (
            self.schema@,
            self.authorization,
            self.verification,
            self.capability,
            self.enforcement,
            self.execution,
            self.reason@,
        )
    }
}

impl ExecutionResult {
    pub fn reason(&self) -> (r: &str)
        ensures
            r@ == self@.6,
    {
        self.reason.as_str()
    }

    pub fn schema(&self) -> (r: &str)
        ensures
            r@ == self@.0,
    {
        self.schema.as_str()
    }

    pub fn authorization(&self) -> (r: Authorization)
        ensures
            r == self@.1,
    {
        self.authorization
    }

    pub fn verification(&self) -> (r: Verification)
        ensures
            r == self@.2,
    {
        self.verification
    }

    pub fn capability(&self) -> (r: Capability)
        ensures
            r == self@.3,
    {
        self.capability
    }

    pub fn enforcement(&self) -> (r: Enforcement)
        ensures
            r == self@.4,
    {
        self.enforcement
    }

    pub fn execution(&self) -> (r: Execution)
        ensures
            r == self@.5,
    {
        self.execution
    }

    /// A blocked operation: advisory, not executed.
    pub fn blocked(
        authorization: Authorization,
        verification: Verification,
        capability: Capability,
        reason: String,
    ) -> (r: ExecutionResult)
        ensures
            r@ == ("kero/execution-result/v1"@, authorization, verification, capability, Enforcement::Advisory, Execution::Block, reason@),
    {
        ExecutionResult {
            schema: String::from_str("kero/execution-result/v1"),
            authorization,
            verification,
            capability,
            enforcement: Enforcement::Advisory,
            execution: Execution::Block,
            reason,
        }
    }

    /// An operation that ran. Without attested deployment wiring a native
    /// operation can only report an advisory outcome; no builder gives an
    /// enforced one.
    pub fn executed_advisory(
        authorization: Authorization,
        verification: Verification,
        capability: Capability,
        reason: String,
    ) -> (r: ExecutionResult)
        ensures
            r@ == ("kero/execution-result/v1"@, authorization, verification, capability, Enforcement::Advisory, Execution::Execute, reason@),
    {
        ExecutionResult {
            schema: String::from_str("kero/execution-result/v1"),
            authorization,
            verification,
            capability,
            enforcement: Enforcement::Advisory,
            execution: Execution::Execute,
            reason,
        }
    }
}

} // verus!
