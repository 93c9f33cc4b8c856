use tui_logic::guardian::read_only_guardian_permission_profile;
use tui_logic::guardian::reviewer_config_overrides;
use tui_logic::guardian::AskForApproval;
use tui_logic::guardian::Feature;

#[derive(Clone, Debug, PartialEq)]
enum Profile {
    ReadOnly,
    ExternalRestricted,
}

#[test]
fn guardian_overrides_pin_the_session_policy() {
    let overrides = reviewer_config_overrides(Some(Profile::ReadOnly), Profile::ExternalRestricted, "gpt-test", Some(3u8));
    assert_eq!(overrides.model, "gpt-test");
    assert_eq!(overrides.reasoning_effort, Some(3));
    assert_eq!(overrides.request_max_retries, 1);
    assert_eq!(overrides.stream_max_retries, 1);
    assert!(!overrides.include_skill_instructions);
    assert!(!overrides.use_memories);
    assert!(!overrides.dedicated_memory_tools);
    assert!(!overrides.inherit_token_budget);
    assert_eq!(overrides.notify, None);
    assert_eq!(overrides.developer_instructions, None);
    assert_eq!(overrides.approval_policy, AskForApproval::Never);
    assert_eq!(overrides.permission_profile, Profile::ReadOnly);
    assert!(!overrides.include_apps_instructions);
    assert!(!overrides.inherit_mcp_servers);
    assert_eq!(
        overrides.disabled_features,
        vec![
            Feature::Collab,
            Feature::MultiAgentV2,
            Feature::GuardianV2,
            Feature::TokenBudget,
            Feature::ContextManagement,
            Feature::CodexHooks,
            Feature::Apps,
            Feature::Plugins,
            Feature::WebSearchRequest,
            Feature::WebSearchCached,
        ]
    );
}

#[test]
fn guardian_falls_back_to_restricted_external_permissions() {
    assert_eq!(
        read_only_guardian_permission_profile(None, Profile::ExternalRestricted),
        Profile::ExternalRestricted
    );
    assert_eq!(
        read_only_guardian_permission_profile(Some(Profile::ReadOnly), Profile::ExternalRestricted),
        Profile::ReadOnly
    );
    let overrides = reviewer_config_overrides::<Profile, u8>(None, Profile::ExternalRestricted, "m", None);
    assert_eq!(overrides.permission_profile, Profile::ExternalRestricted);
    assert_eq!(overrides.reasoning_effort, None);
}
