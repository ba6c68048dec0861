use perry_hermes_agent::config::{
    default_context_compression_enabled, default_qqbot_app_id_env, default_qqbot_app_secret_env,
    default_telegram_token_env, ConfigError, GatewayTomlConfig, ProviderKind, QqBotConfig,
    TelegramConfig, ThinkingConfig, ThinkingMode,
};
use perry_hermes_agent::{AIAgent, AgentConfig, AgentLoop, ModelConfig, PerryHermesConfig, ProviderConfig};

const SKILLS: &str = "/tmp/perry-hermes-test-skills";

fn model(name: &str, context_window_size: u64) -> ModelConfig {
    ModelConfig { name: name.to_string(), context_window_size }
}

fn provider(
    name: &str,
    kind: ProviderKind,
    api_key_env: Option<&str>,
    base_url: Option<&str>,
    models: Vec<ModelConfig>,
) -> ProviderConfig {
    ProviderConfig {
        name: name.to_string(),
        kind,
        api_key_env: api_key_env.map(|s| s.to_string()),
        models,
        base_url: base_url.map(|s| s.to_string()),
        api_key_header: None,
        thinking: None,
    }
}

fn config(providers: Vec<ProviderConfig>, default_provider: &str, default_model: &str) -> PerryHermesConfig {
    PerryHermesConfig {
        providers,
        agent: AgentConfig {
            default_provider: default_provider.to_string(),
            default_model: default_model.to_string(),
            ..AgentConfig::default()
        },
        gateway: GatewayTomlConfig::default(),
    }
}

#[test]
fn resolves_default_provider_and_model() {
    let config = config(
        vec![
            provider(
                "minimax",
                ProviderKind::Anthropic,
                Some("MINIMAX_API_KEY"),
                Some("https://api.minimaxi.com/anthropic/v1"),
                vec![model("MiniMax-M3", 1_000_000), model("MiniMax-M2.7", 204_800)],
            ),
            provider(
                "openai-main",
                ProviderKind::Openai,
                Some("OPENAI_API_KEY"),
                Some("https://api.openai.com/v1"),
                vec![model("gpt-4.1", 1_047_576)],
            ),
        ],
        "minimax",
        "MiniMax-M2.7",
    );
    let selected = config.resolve_provider().ok().unwrap();

    assert_eq!(selected.name, "minimax");
    assert_eq!(selected.kind, ProviderKind::Anthropic);
    assert_eq!(selected.model, "MiniMax-M2.7");
    assert_eq!(selected.context_window_size, 204_800);
    assert_eq!(
        selected.base_url.as_deref(),
        Some("https://api.minimaxi.com/anthropic/v1")
    );
    assert_eq!(selected.api_key_env.as_deref(), Some("MINIMAX_API_KEY"));
}

#[test]
fn resolve_provider_errors_when_default_model_is_not_on_provider() {
    let config = config(
        vec![provider(
            "minimax",
            ProviderKind::Anthropic,
            Some("MINIMAX_API_KEY"),
            Some("https://api.minimaxi.com/anthropic/v1"),
            vec![model("MiniMax-M3", 1_000_000)],
        )],
        "minimax",
        "missing-model",
    );
    let err = config.resolve_provider().err().unwrap().message();

    assert!(err.contains("missing-model"), "{err}");
    assert!(err.contains("minimax"), "{err}");
    assert_eq!(
        err,
        "agent.default_model \"missing-model\" does not match any model for provider \"minimax\""
    );
}

#[test]
fn resolve_provider_errors_when_no_provider_has_the_name() {
    let config = config(Vec::new(), "no\"body", "m");
    let err = config.resolve_provider().err().unwrap();
    assert!(matches!(err, ConfigError::UnknownProvider { .. }));
    assert_eq!(
        err.message(),
        "agent.default_provider \"no\\\"body\" does not match any [[providers]].name"
    );
}

#[test]
fn the_first_provider_of_a_name_counts() {
    let config = config(
        vec![
            provider("p", ProviderKind::Echo, None, None, vec![model("a", 1)]),
            provider("p", ProviderKind::Openai, None, None, vec![model("b", 2)]),
        ],
        "p",
        "b",
    );
    assert!(config.resolve_provider().is_err());
}

#[test]
fn thinking_settings_are_carried_over() {
    let mut p = provider("p", ProviderKind::Anthropic, None, None, vec![model("m", 9)]);
    p.thinking = Some(ThinkingConfig {
        mode: ThinkingMode::Adaptive,
        budget_tokens: Some(7),
        display: Some("summarized".to_string()),
        effort: Some("medium".to_string()),
    });
    p.api_key_header = Some("api-key".to_string());
    let selected = config(vec![p], "p", "m").resolve_provider().ok().unwrap();
    let thinking = selected.thinking.unwrap();
    assert_eq!(thinking.mode, ThinkingMode::Adaptive);
    assert_eq!(thinking.budget_tokens, Some(7));
    assert_eq!(thinking.display.as_deref(), Some("summarized"));
    assert_eq!(thinking.effort.as_deref(), Some("medium"));
    assert_eq!(selected.api_key_header.as_deref(), Some("api-key"));
}

#[test]
fn defaults_are_as_documented() {
    assert_eq!(default_telegram_token_env(), "TELEGRAM_BOT_TOKEN");
    assert_eq!(default_qqbot_app_id_env(), "QQ_BOT_APP_ID");
    assert_eq!(default_qqbot_app_secret_env(), "QQ_BOT_APP_SECRET");
    assert!(default_context_compression_enabled());
    assert_eq!(ProviderKind::default(), ProviderKind::Echo);
    let config = PerryHermesConfig::default();
    assert!(config.providers.is_empty());
    assert!(config.agent.context_compression_enabled);
    assert!(config.gateway.telegram.is_none());
}

#[test]
fn telegram_token_comes_from_settings_then_environment() {
    let mut telegram = TelegramConfig::default();
    assert_eq!(telegram.token_env, "TELEGRAM_BOT_TOKEN");
    let err = telegram.resolve(&None).err().unwrap();
    assert_eq!(
        err.message(),
        "telegram: TELEGRAM_BOT_TOKEN env var not set and no value in config"
    );
    assert!(telegram.resolve(&Some(String::new())).is_err());
    assert_eq!(telegram.resolve(&Some("env".to_string())).ok().unwrap(), "env");
    telegram.token = Some("explicit".to_string());
    assert_eq!(telegram.resolve(&Some("env".to_string())).ok().unwrap(), "explicit");
}

#[test]
fn qqbot_needs_id_and_secret() {
    let mut qq = QqBotConfig::default();
    assert!(!qq.sandbox);
    assert_eq!(qq.intents, 0);
    let value = Some("v".to_string());
    assert_eq!(
        qq.resolve(&None, &value).err().unwrap().message(),
        "qqbot: QQ_BOT_APP_ID env var not set and no value in config"
    );
    assert_eq!(
        qq.resolve(&value, &Some(String::new())).err().unwrap().message(),
        "qqbot: QQ_BOT_APP_SECRET env var not set and no value in config"
    );
    qq.app_secret = Some("s".to_string());
    let pair = qq.resolve(&value, &None).ok().unwrap();
    assert_eq!(pair, ("v".to_string(), "s".to_string()));
}

fn openai(api_key_env: Option<&str>, base_url: Option<&str>, default_model: &str) -> PerryHermesConfig {
    config(
        vec![provider(
            "openai-main",
            ProviderKind::Openai,
            api_key_env,
            base_url,
            vec![model("gpt-4o-mini", 128_000)],
        )],
        "openai-main",
        default_model,
    )
}

fn anthropic_without_model() -> PerryHermesConfig {
    config(
        vec![provider(
            "anthropic-main",
            ProviderKind::Anthropic,
            None,
            Some("https://api.anthropic.com/v1"),
            vec![model("sonnet", 200_000)],
        )],
        "anthropic-main",
        "missing-model",
    )
}

fn loop_error(config: &PerryHermesConfig) -> String {
    AgentLoop::from_config(config, &None, 64_000, SKILLS)
        .err()
        .expect("expected from_config to fail")
        .message()
}

fn agent_error(config: &PerryHermesConfig) -> String {
    AIAgent::from_config(config, None, &None, 64_000, SKILLS)
        .err()
        .expect("expected from_config to fail")
        .message()
}

#[test]
fn agent_loop_from_config_succeeds_for_echo_provider() {
    let agent = AgentLoop::from_config(&PerryHermesConfig::for_test_echo(), &None, 64_000, SKILLS)
        .ok()
        .expect("echo should build with no env vars");
    assert_eq!(agent.config.max_iterations, 10);
    assert!(agent.config.compaction);
    assert_eq!(agent.config.context_window.unwrap().max_tokens, 128_000);
    assert_eq!(agent.registry.schemas().len(), 7);
}

#[test]
fn agent_loop_from_config_errors_on_missing_model() {
    let msg = loop_error(&openai(None, Some("https://api.openai.com/v1"), "missing-model"));
    assert!(msg.contains("model"), "error should name the missing field: {msg}");
}

#[test]
fn agent_loop_from_config_errors_on_missing_base_url() {
    let msg = loop_error(&openai(None, None, "gpt-4o-mini"));
    assert!(msg.contains("base_url"), "error should name the missing field: {msg}");
}

#[test]
fn agent_loop_from_config_errors_on_missing_api_key_env() {
    let msg = loop_error(&openai(
        Some("PERRY_HERMES_TEST_DEFINITELY_NOT_SET_98765"),
        Some("https://api.openai.com/v1"),
        "gpt-4o-mini",
    ));
    assert!(
        msg.contains("PERRY_HERMES_TEST_DEFINITELY_NOT_SET_98765"),
        "error should name the missing env var: {msg}"
    );
}

#[test]
fn agent_loop_from_config_errors_on_missing_anthropic_model() {
    let msg = loop_error(&anthropic_without_model());
    assert!(msg.contains("model"));
}

#[test]
fn agent_loop_new_with_custom_provider_and_default_config() {
    let agent = AgentLoop::new(&PerryHermesConfig::default(), 0, SKILLS);
    assert!(agent.config.context_window.is_none());
}

#[test]
fn runtime_agent_from_config_succeeds_for_echo_provider() {
    let agent = AIAgent::from_config(&PerryHermesConfig::for_test_echo(), None, &None, 64_000, SKILLS)
        .ok()
        .expect("echo should build with no env vars");
    assert!(agent.system_prompt.is_none());
}

#[test]
fn runtime_agent_from_config_errors_on_missing_model() {
    let msg = agent_error(&openai(None, Some("https://api.openai.com/v1"), "missing-model"));
    assert!(msg.contains("model"), "error should name the missing field: {msg}");
}

#[test]
fn runtime_agent_from_config_errors_on_missing_base_url() {
    let msg = agent_error(&openai(None, None, "gpt-4o-mini"));
    assert!(msg.contains("base_url"), "error should name the missing field: {msg}");
}

#[test]
fn runtime_agent_from_config_errors_on_missing_api_key_env() {
    let msg = agent_error(&openai(
        Some("PERRY_HERMES_TEST_DEFINITELY_NOT_SET_98765"),
        Some("https://api.openai.com/v1"),
        "gpt-4o-mini",
    ));
    assert!(
        msg.contains("PERRY_HERMES_TEST_DEFINITELY_NOT_SET_98765"),
        "error should name the missing env var: {msg}"
    );
}

#[test]
fn runtime_agent_from_config_errors_on_missing_anthropic_model() {
    let msg = agent_error(&anthropic_without_model());
    assert!(msg.contains("model"));
}

#[test]
fn runtime_agent_new_with_custom_provider_and_default_config() {
    let agent = AIAgent::new(&PerryHermesConfig::default(), Some("mine".to_string()), 0, SKILLS);
    assert_eq!(agent.system_prompt.as_deref(), Some("mine"));
    let session = agent.new_session("s", "/tmp", "", &Vec::new());
    let text = session.outbound_messages()[0].content.as_text();
    assert_eq!(text, "mine\n\nCurrent working directory: /tmp");
}

#[test]
fn a_key_that_is_set_lets_a_provider_be_used() {
    let config = openai(Some("KEY"), Some("https://api.openai.com/v1"), "gpt-4o-mini");
    let mut config = config;
    config.agent.max_iterations = Some(12);
    config.agent.context_compression_enabled = false;
    config.agent.disabled_toolsets = vec!["terminal".to_string()];
    let agent = AgentLoop::from_config(&config, &Some("k".to_string()), 5, SKILLS).ok().unwrap();
    assert_eq!(agent.config.max_iterations, 12);
    assert!(!agent.config.compaction);
    assert_eq!(agent.config.context_window.unwrap().threshold, 5);
    assert_eq!(agent.registry.schemas().len(), 6);
}
