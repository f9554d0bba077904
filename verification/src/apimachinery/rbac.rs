//! Requests and decisions of access control, for callers that hold both in one
//! place. The engine that evaluates roles has its own request.

use vstd::prelude::*;

verus! {

/// A request to evaluate.
#[derive(Debug, Clone)]
pub struct AuthorizationRequest {
    pub user: String,
    pub groups: Vec<String>,
    pub verb: String,
    pub resource: String,
    pub api_group: String,
    pub namespace: Option<String>,
    pub name: Option<String>,
}

/// The result of an evaluation.
#[derive(Debug, Clone, PartialEq, Eq)]
pub enum AuthorizationDecision {
    Allowed,
    Denied { reason: String },
}

} // verus!
