use vstd::prelude::*;

verus! {

/// The capabilities a caller asks for when it submits work.
#[derive(Clone, Copy, Debug, PartialEq, Eq, Structural)]
pub struct Policy {
    pub allow_networking: bool,
    pub allow_hybrid_compute: bool,
    pub allow_telemetry: bool,
}

/// Why a requested policy was refused.
#[derive(Clone, Copy, Debug, PartialEq, Eq, Structural)]
pub enum PolicyError {
    /// Outbound networking is disabled in this build.
    NetworkingDisabled,
    /// Telemetry is disabled in this build.
    TelemetryDisabled,
}

impl PolicyError {
    /// A human-readable description of the refusal.
    pub fn message(&self) -> String {
        match self {
            PolicyError::NetworkingDisabled => "Networking is disabled by build configuration".to_string(),
            PolicyError::TelemetryDisabled => "Telemetry is disabled by build configuration".to_string(),
        }
    }
}

/// A policy is admissible when it asks for neither networking nor telemetry.
pub open spec fn admissible(p: Policy) -> bool {
    !p.allow_networking && !p.allow_telemetry
}

/// What an admissible request is granted: hybrid compute as asked, nothing more.
pub open spec fn granted(p: Policy) -> Policy {
    Policy { allow_networking: false, allow_hybrid_compute: p.allow_hybrid_compute, allow_telemetry: false }
}

/// The error that `enforce_policy` reports for a policy it refuses.
pub open spec fn refusal_of(p: Policy) -> PolicyError {
    if p.allow_networking {
        PolicyError::NetworkingDisabled
    } else {
        PolicyError::TelemetryDisabled
    }
}

/// Checks a requested policy against the build's restrictions.
///
/// Networking and telemetry cannot be granted: asking for either rejects the
/// whole request. Hybrid compute passes through unchanged.
pub fn enforce_policy(policy: Policy) -> (r: Result<Policy, PolicyError>)
    ensures
        admissible(policy) <==> r is Ok,
        r is Ok ==> r->Ok_0 == granted(policy),
        r is Err ==> r->Err_0 == refusal_of(policy),
{
    if policy.allow_networking {
        return Err(PolicyError::NetworkingDisabled);
    }
    if policy.allow_telemetry {
        return Err(PolicyError::TelemetryDisabled);
    }
    Ok(Policy {
        allow_networking: false,
        allow_hybrid_compute: policy.allow_hybrid_compute,
        allow_telemetry: false,
    })
}

} // verus!
