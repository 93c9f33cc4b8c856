//! Settings of the guardian: the configuration policy a host applies to a guardian session.
//! The guardian runs on the given model, never asks for approval, gets at most a read-only
//! ceiling of its parent's permissions and has the features listed in
//! [`guardian_disabled_features`] switched off.
//!
//! The permission profile and the reasoning effort are the host's types, so they are type
//! parameters here; the host computes the read-only intersection of the parent's profile.

use vstd::prelude::*;
use vstd::string::StringExecFns;

verus! {

/// When a session asks the user for approval.
#[derive(Clone, Copy, Debug, PartialEq, Eq, Structural)]
pub enum AskForApproval {
    UnlessTrusted,
    OnFailure,
    OnRequest,
    Never,
}

/// The features a guardian session switches off.
#[derive(Clone, Copy, Debug, PartialEq, Eq, Structural)]
pub enum Feature {
    Collab,
    MultiAgentV2,
    GuardianV2,
    TokenBudget,
    ContextManagement,
    CodexHooks,
    Apps,
    Plugins,
    WebSearchRequest,
    WebSearchCached,
}

/// The features switched off for a guardian session, in the order they are disabled.
pub open spec fn guardian_disabled_features() -> Seq<Feature> {
    seq![
        Feature::Collab,
        Feature::MultiAgentV2,
        Feature::GuardianV2,
        Feature::TokenBudget,
        Feature::ContextManagement,
        Feature::CodexHooks,
        Feature::Apps,
        Feature::Plugins,
        Feature::WebSearchRequest,
        Feature::WebSearchCached,
    ]
}

/// Configuration policy for a guardian session. The host keeps managed constraints and live network
/// rules while applying these values to its runtime config.
pub struct ReviewerConfigOverrides<P, E> {
    pub model: String,
    pub reasoning_effort: Option<E>,
    pub request_max_retries: u64,
    pub stream_max_retries: u64,
    pub include_skill_instructions: bool,
    pub use_memories: bool,
    pub dedicated_memory_tools: bool,
    pub inherit_token_budget: bool,
    pub notify: Option<Vec<String>>,
    pub developer_instructions: Option<String>,
    pub approval_policy: AskForApproval,
    pub permission_profile: P,
    pub include_apps_instructions: bool,
    pub inherit_mcp_servers: bool,
    pub disabled_features: Vec<Feature>,
}

/// The permissions of a guardian session: the read-only intersection of the parent's profile where
/// there is one, else an external profile with restricted network.
pub fn read_only_guardian_permission_profile<P>(read_only_intersection: Option<P>, restricted_external: P) -> (r: P)
    ensures
        r == match read_only_intersection {
            Some(p) => p,
            None => restricted_external,
        },
{
    match read_only_intersection {
        Some(p) => p,
        None => restricted_external,
    }
}

/// The guardian configuration for `model` and `reasoning_effort`, whose permissions are those
/// of [`read_only_guardian_permission_profile`].
pub fn reviewer_config_overrides<P, E>(
    read_only_intersection: Option<P>,
    restricted_external: P,
    model: &str,
    reasoning_effort: Option<E>,
) -> (r: ReviewerConfigOverrides<P, E>)
    ensures
        r.model@ == model@,
        r.reasoning_effort == reasoning_effort,
        r.request_max_retries == 1,
        r.stream_max_retries == 1,
        !r.include_skill_instructions,
        !r.use_memories,
        !r.dedicated_memory_tools,
        !r.inherit_token_budget,
        r.notify is None,
        r.developer_instructions is None,
        r.approval_policy == AskForApproval::Never,
        r.permission_profile == match read_only_intersection {
            Some(p) => p,
            None => restricted_external,
        },
        !r.include_apps_instructions,
        !r.inherit_mcp_servers,
        r.disabled_features@ == guardian_disabled_features(),
{
    let disabled_features = vec![
        Feature::Collab,
        Feature::MultiAgentV2,
        Feature::GuardianV2,
        Feature::TokenBudget,
        Feature::ContextManagement,
        Feature::CodexHooks,
        Feature::Apps,
        Feature::Plugins,
        Feature::WebSearchRequest,
        Feature::WebSearchCached,
    ];
    assert(disabled_features@ =~= guardian_disabled_features());
    ReviewerConfigOverrides {
        model: String::from_str(model),
        reasoning_effort,
        request_max_retries: 1,
        stream_max_retries: 1,
        include_skill_instructions: false,
        use_memories: false,
        dedicated_memory_tools: false,
        inherit_token_budget: false,
        notify: None,
        developer_instructions: None,
        approval_policy: AskForApproval::Never,
        permission_profile: read_only_guardian_permission_profile(read_only_intersection, restricted_external),
        include_apps_instructions: false,
        inherit_mcp_servers: false,
        disabled_features,
    }
}

} // verus!
