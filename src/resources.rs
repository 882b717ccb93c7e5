use vstd::prelude::*;

verus! {

/// Desired state of a tool server deployment.
#[derive(Debug, Clone, PartialEq, Eq)]
pub struct LatchkeyServerSpec {
    pub image: String,
    pub replicas: Option<i32>,
    pub transport: Option<String>,
    pub service_port: Option<u16>,
}

/// Observed state of a tool server deployment.
#[derive(Debug, Clone, Default, PartialEq, Eq)]
pub struct LatchkeyServerStatus {
    pub ready_replicas: Option<i32>,
    pub endpoints: Option<Vec<String>>,
    pub conditions: Option<Vec<String>>,
}

/// A tool exposed by a server.
#[derive(Debug, Clone, PartialEq, Eq)]
pub struct LatchkeyToolSpec {
    pub tool_name: String,
    pub server_ref: String,
    pub tool_selector: Option<String>,
    pub max_payload_bytes: Option<u64>,
    pub timeout_ms: Option<u64>,
}

#[derive(Debug, Clone, Default, PartialEq, Eq)]
pub struct LatchkeyToolStatus {
    pub resolved_server: Option<String>,
    pub conditions: Option<Vec<String>>,
}

/// A caller identity and how it authenticates.
#[derive(Debug, Clone, PartialEq, Eq)]
pub struct LatchkeyPrincipalSpec {
    pub principal_id: String,
    pub auth_mode: String,
    pub enabled: bool,
    pub policy_refs: Option<Vec<String>>,
}

#[derive(Debug, Clone, Default, PartialEq, Eq)]
pub struct LatchkeyPrincipalStatus {
    pub conditions: Option<Vec<String>>,
}

/// Which subjects may use which scopes.
#[derive(Debug, Clone, PartialEq, Eq)]
pub struct LatchkeyPolicySpec {
    pub subjects: Vec<String>,
    pub scopes: Vec<String>,
    pub break_glass: Option<bool>,
    pub audit_level: Option<String>,
}

#[derive(Debug, Clone, Default, PartialEq, Eq)]
pub struct LatchkeyPolicyStatus {
    pub conditions: Option<Vec<String>>,
}

} // verus!
