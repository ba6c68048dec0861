//! The settings of the program.

use vstd::prelude::*;
use vstd::string::*;

use crate::loop_engine::events::copy_text;
use crate::text::same;
use crate::tool::opt_view;

verus! {

/// All settings.
pub struct PerryHermesConfig {
    pub providers: Vec<ProviderConfig>,
    pub agent: AgentConfig,
    pub gateway: GatewayTomlConfig,
}

/// The chat platforms that are served. One that is missing is not.
pub struct GatewayTomlConfig {
    pub telegram: Option<TelegramConfig>,
    pub qqbot: Option<QqBotConfig>,
}

/// The Telegram bot.
pub struct TelegramConfig {
    /// The environment variable that holds the token.
    pub token_env: String,
    /// The token itself, which goes before the variable.
    pub token: Option<String>,
    pub allowed_users: Vec<String>,
}

/// The QQ bot.
pub struct QqBotConfig {
    /// The environment variable that holds the id.
    pub app_id_env: String,
    /// The environment variable that holds the secret.
    pub app_secret_env: String,
    /// The id itself, which goes before the variable.
    pub app_id: Option<String>,
    /// The secret itself, which goes before the variable.
    pub app_secret: Option<String>,
    pub sandbox: bool,
    /// The events to subscribe to; 0 stands for public messages.
    pub intents: u32,
    pub allowed_users: Vec<String>,
}

pub fn default_telegram_token_env() -> (r: String)
    ensures
        r@ == "TELEGRAM_BOT_TOKEN"@,
{
    "TELEGRAM_BOT_TOKEN".to_owned()
}

pub fn default_qqbot_app_id_env() -> (r: String)
    ensures
        r@ == "QQ_BOT_APP_ID"@,
{
    "QQ_BOT_APP_ID".to_owned()
}

pub fn default_qqbot_app_secret_env() -> (r: String)
    ensures
        r@ == "QQ_BOT_APP_SECRET"@,
{
    "QQ_BOT_APP_SECRET".to_owned()
}

pub fn default_context_compression_enabled() -> (r: bool)
    ensures
        r,
{
    true
}

impl Default for TelegramConfig {
    fn default() -> (r: Self)
        ensures
            r.token_env@ == "TELEGRAM_BOT_TOKEN"@,
            r.token is None,
            r.allowed_users@.len() == 0,
    {
        TelegramConfig {
            token_env: default_telegram_token_env(),
            token: None,
            allowed_users: Vec::new(),
        }
    }
}

impl Default for QqBotConfig {
    fn default() -> (r: Self)
        ensures
            r.app_id_env@ == "QQ_BOT_APP_ID"@,
            r.app_secret_env@ == "QQ_BOT_APP_SECRET"@,
            r.app_id is None,
            r.app_secret is None,
            !r.sandbox,
            r.intents == 0,
            r.allowed_users@.len() == 0,
    {
        QqBotConfig {
            app_id_env: default_qqbot_app_id_env(),
            app_secret_env: default_qqbot_app_secret_env(),
            app_id: None,
            app_secret: None,
            sandbox: false,
            intents: 0,
            allowed_users: Vec::new(),
        }
    }
}

impl Default for GatewayTomlConfig {
    fn default() -> (r: Self)
        ensures
            r.telegram is None,
            r.qqbot is None,
    {
        GatewayTomlConfig { telegram: None, qqbot: None }
    }
}

// ---------------------------------------------------------------------
// Credentials
// ---------------------------------------------------------------------

/// What a Telegram setting lacks.
pub enum TelegramConfigError {
    MissingCredential { var: String },
}

/// What a QQ setting lacks.
pub enum QqBotConfigError {
    MissingCredential { var: String },
}

/// The text that tells of a credential which is found nowhere.
pub open spec fn missing_credential(platform: Seq<char>, var: Seq<char>) -> Seq<char> {
    platform + ": "@ + var + " env var not set and no value in config"@
}

fn missing_text(platform: &str, var: &str) -> (r: String)
    ensures
        r@ == missing_credential(platform@, var@),
{
    let mut out = platform.to_owned();
    out.append(": ");
    out.append(var);
    out.append(" env var not set and no value in config");
    out
}

impl TelegramConfigError {
    pub fn message(&self) -> (r: String)
        ensures
            r@ == missing_credential("telegram"@, self->var@),
    {
        match self {
            TelegramConfigError::MissingCredential { var } => missing_text(
                "telegram",
                var.as_str(),
            ),
        }
    }
}

impl QqBotConfigError {
    pub fn message(&self) -> (r: String)
        ensures
            r@ == missing_credential("qqbot"@, self->var@),
    {
        match self {
            QqBotConfigError::MissingCredential { var } => missing_text("qqbot", var.as_str()),
        }
    }
}

/// A credential: the value of the settings, or else the value of the
/// variable unless that is empty.
pub open spec fn credential(value: Option<Seq<char>>, from_env: Option<Seq<char>>) -> Option<
    Seq<char>,
> {
    match value {
        Some(v) => Some(v),
        None => match from_env {
            Some(v) => if v.len() == 0 {
                None
            } else {
                Some(v)
            },
            None => None,
        },
    }
}

fn find_credential(value: &Option<String>, from_env: &Option<String>) -> (r: Option<String>)
    ensures
        opt_view(r) == credential(opt_view(*value), opt_view(*from_env)),
{
    match value {
        Some(v) => Some(v.clone()),
        None => match from_env {
            Some(v) => if same(v.as_str(), "") {
                proof {
                    reveal_strlit("");
                }
                None
            } else {
                proof {
                    reveal_strlit("");
                    if v@.len() == 0 {
                        assert(v@ =~= ""@);
                    }
                }
                Some(v.clone())
            },
            None => None,
        },
    }
}

impl TelegramConfig {
    /// The token. `from_env` is the value of the variable `token_env`, if
    /// it is set.
    pub fn resolve(&self, from_env: &Option<String>) -> (r: Result<String, TelegramConfigError>)
        ensures
            match credential(opt_view(self.token), opt_view(*from_env)) {
                Some(t) => r is Ok && r->Ok_0@ == t,
                None => r is Err && r->Err_0->var@ == self.token_env@,
            },
    {
        match find_credential(&self.token, from_env) {
            Some(t) => Ok(t),
            None => Err(TelegramConfigError::MissingCredential { var: self.token_env.clone() }),
        }
    }
}

impl QqBotConfig {
    /// The id and the secret. `id_from_env` and `secret_from_env` are the
    /// values of the variables, if they are set.
    pub fn resolve(&self, id_from_env: &Option<String>, secret_from_env: &Option<String>) -> (r:
        Result<(String, String), QqBotConfigError>)
        ensures
            ({
                let id = credential(opt_view(self.app_id), opt_view(*id_from_env));
                let secret = credential(opt_view(self.app_secret), opt_view(*secret_from_env));
                if id is None {
                    r is Err && r->Err_0->var@ == self.app_id_env@
                } else if secret is None {
                    r is Err && r->Err_0->var@ == self.app_secret_env@
                } else {
                    r is Ok && r->Ok_0.0@ == id->0 && r->Ok_0.1@ == secret->0
                }
            }),
    {
        let app_id = match find_credential(&self.app_id, id_from_env) {
            Some(v) => v,
            None => {
                return Err(QqBotConfigError::MissingCredential { var: self.app_id_env.clone() });
            },
        };
        match find_credential(&self.app_secret, secret_from_env) {
            Some(app_secret) => Ok((app_id, app_secret)),
            None => Err(
                QqBotConfigError::MissingCredential { var: self.app_secret_env.clone() },
            ),
        }
    }
}

// ---------------------------------------------------------------------
// Providers
// ---------------------------------------------------------------------

/// A provider and its models.
pub struct ProviderConfig {
    pub name: String,
    pub kind: ProviderKind,
    /// The environment variable that holds the key, if one is needed.
    pub api_key_env: Option<String>,
    pub models: Vec<ModelConfig>,
    pub base_url: Option<String>,
    pub api_key_header: Option<String>,
    pub thinking: Option<ThinkingConfig>,
}

/// A provider with the model that is used.
pub struct ResolvedProviderConfig {
    pub name: String,
    pub kind: ProviderKind,
    pub api_key_env: Option<String>,
    pub model: String,
    pub base_url: Option<String>,
    pub api_key_header: Option<String>,
    pub thinking: Option<ThinkingConfig>,
    pub context_window_size: u64,
}

/// A model and how many tokens it takes.
pub struct ModelConfig {
    pub name: String,
    pub context_window_size: u64,
}

/// The protocol that a provider speaks.
#[derive(Clone, Copy, Debug, PartialEq, Eq, Structural)]
pub enum ProviderKind {
    Echo,
    Openai,
    Anthropic,
}

impl Default for ProviderKind {
    fn default() -> (r: Self)
        ensures
            r == ProviderKind::Echo,
    {
        ProviderKind::Echo
    }
}

/// How much a model thinks.
pub struct ThinkingConfig {
    pub mode: ThinkingMode,
    pub budget_tokens: Option<u32>,
    pub display: Option<String>,
    pub effort: Option<String>,
}

#[derive(Clone, Copy, Debug, PartialEq, Eq, Structural)]
pub enum ThinkingMode {
    Off,
    Manual,
    Adaptive,
}

/// Settings of the agent.
pub struct AgentConfig {
    pub default_provider: String,
    pub default_model: String,
    pub max_iterations: Option<u32>,
    pub disabled_toolsets: Vec<String>,
    pub context_compression_enabled: bool,
}

impl Default for AgentConfig {
    fn default() -> (r: Self)
        ensures
            r.default_provider@.len() == 0,
            r.default_model@.len() == 0,
            r.max_iterations is None,
            r.disabled_toolsets@.len() == 0,
            r.context_compression_enabled,
    {
        AgentConfig {
            default_provider: String::new(),
            default_model: String::new(),
            max_iterations: None,
            disabled_toolsets: Vec::new(),
            context_compression_enabled: default_context_compression_enabled(),
        }
    }
}

impl Default for PerryHermesConfig {
    fn default() -> (r: Self)
        ensures
            r.providers@.len() == 0,
            r.agent.default_provider@.len() == 0,
            r.agent.default_model@.len() == 0,
            r.agent.max_iterations is None,
            r.agent.disabled_toolsets@.len() == 0,
            r.agent.context_compression_enabled,
            r.gateway.telegram is None,
            r.gateway.qqbot is None,
    {
        PerryHermesConfig {
            providers: Vec::new(),
            agent: AgentConfig::default(),
            gateway: GatewayTomlConfig::default(),
        }
    }
}

#[verifier::ext_equal]
pub ghost struct ThinkingView {
    pub mode: ThinkingMode,
    pub budget_tokens: Option<u32>,
    pub display: Option<Seq<char>>,
    pub effort: Option<Seq<char>>,
}

impl View for ThinkingConfig {
    type V = ThinkingView;

    open spec fn view(&self) -> ThinkingView {
        ThinkingView {
            mode: self.mode,
            budget_tokens: self.budget_tokens,
            display: opt_view(self.display),
            effort: opt_view(self.effort),
        }
    }
}

pub open spec fn opt_thinking(t: Option<ThinkingConfig>) -> Option<ThinkingView> {
    match t {
        Some(x) => Some(x@),
        None => None,
    }
}

fn copy_thinking(t: &Option<ThinkingConfig>) -> (r: Option<ThinkingConfig>)
    ensures
        opt_thinking(r) == opt_thinking(*t),
{
    match t {
        Some(x) => Some(
            ThinkingConfig {
                mode: x.mode,
                budget_tokens: x.budget_tokens,
                display: copy_text(&x.display),
                effort: copy_text(&x.effort),
            },
        ),
        None => None,
    }
}

/// The names of providers, in order.
pub open spec fn provider_names(providers: Seq<ProviderConfig>) -> Seq<Seq<char>> {
    Seq::new(providers.len(), |i: int| providers[i].name@)
}

/// The names of models, in order.
pub open spec fn model_names(models: Seq<ModelConfig>) -> Seq<Seq<char>> {
    Seq::new(models.len(), |i: int| models[i].name@)
}

/// The first place from `i` on of a name; the length if there is none.
pub open spec fn name_at(names: Seq<Seq<char>>, name: Seq<char>, i: int) -> int
    decreases names.len() - i,
{
    if i >= names.len() {
        names.len() as int
    } else if names[i] == name {
        i
    } else {
        name_at(names, name, i + 1)
    }
}

pub proof fn lemma_name_at(names: Seq<Seq<char>>, name: Seq<char>, i: int)
    requires
        0 <= i <= names.len(),
    ensures
        i <= name_at(names, name, i) <= names.len(),
        name_at(names, name, i) < names.len() ==> names[name_at(names, name, i)] == name,
        forall|k: int| i <= k < name_at(names, name, i) ==> #[trigger] names[k] != name,
    decreases names.len() - i,
{
    if i < names.len() && names[i] != name {
        lemma_name_at(names, name, i + 1);
    }
}

/// A text as Rust writes it in quotes, with escapes.
pub uninterp spec fn quoted(s: Seq<char>) -> Seq<char>;

/// The `Debug` form of a `str`: the text in quotes, with escapes. What it is
/// follows from the text alone.
#[verifier::external_body]
fn quoted_text(s: &str) -> (r: String)
    ensures
        r@ == quoted(s@),
{
    format!("{s:?}")
}

/// Why settings cannot be used.
pub enum ConfigError {
    /// No provider has the name.
    UnknownProvider { name: String },
    /// The provider has no model of the name.
    UnknownModel { model: String, provider: String },
    /// The provider needs an address.
    MissingBaseUrl { provider: String },
    /// The variable that holds the key is not set.
    MissingApiKey { var: String, provider: String },
}

#[verifier::ext_equal]
pub ghost enum ConfigErrorView {
    UnknownProvider { name: Seq<char> },
    UnknownModel { model: Seq<char>, provider: Seq<char> },
    MissingBaseUrl { provider: Seq<char> },
    MissingApiKey { var: Seq<char>, provider: Seq<char> },
}

impl View for ConfigError {
    type V = ConfigErrorView;

    open spec fn view(&self) -> ConfigErrorView {
        match self {
            ConfigError::UnknownProvider { name } => ConfigErrorView::UnknownProvider {
                name: name@,
            },
            ConfigError::UnknownModel { model, provider } => ConfigErrorView::UnknownModel {
                model: model@,
                provider: provider@,
            },
            ConfigError::MissingBaseUrl { provider } => ConfigErrorView::MissingBaseUrl {
                provider: provider@,
            },
            ConfigError::MissingApiKey { var, provider } => ConfigErrorView::MissingApiKey {
                var: var@,
                provider: provider@,
            },
        }
    }
}

pub open spec fn config_error_text(e: ConfigErrorView) -> Seq<char> {
    match e {
        ConfigErrorView::UnknownProvider { name } => "agent.default_provider "@ + quoted(name)
            + " does not match any [[providers]].name"@,
        ConfigErrorView::UnknownModel { model, provider } => "agent.default_model "@ + quoted(model)
            + " does not match any model for provider "@ + quoted(provider),
        ConfigErrorView::MissingBaseUrl { provider } => "provider "@ + quoted(provider)
            + " needs a base_url"@,
        ConfigErrorView::MissingApiKey { var, provider } => "provider "@ + quoted(provider)
            + " needs an API key: "@ + var + " env var not set"@,
    }
}

impl ConfigError {
    pub fn message(&self) -> (r: String)
        ensures
            r@ == config_error_text(self@),
    {
        match self {
            ConfigError::UnknownProvider { name } => {
                let mut out = "agent.default_provider ".to_owned();
                out.append(quoted_text(name.as_str()).as_str());
                out.append(" does not match any [[providers]].name");
                out
            },
            ConfigError::UnknownModel { model, provider } => {
                let mut out = "agent.default_model ".to_owned();
                out.append(quoted_text(model.as_str()).as_str());
                out.append(" does not match any model for provider ");
                out.append(quoted_text(provider.as_str()).as_str());
                out
            },
            ConfigError::MissingBaseUrl { provider } => {
                let mut out = "provider ".to_owned();
                out.append(quoted_text(provider.as_str()).as_str());
                out.append(" needs a base_url");
                out
            },
            ConfigError::MissingApiKey { var, provider } => {
                let mut out = "provider ".to_owned();
                out.append(quoted_text(provider.as_str()).as_str());
                out.append(" needs an API key: ");
                out.append(var.as_str());
                out.append(" env var not set");
                out
            },
        }
    }
}

#[verifier::ext_equal]
pub ghost struct ResolvedView {
    pub name: Seq<char>,
    pub kind: ProviderKind,
    pub api_key_env: Option<Seq<char>>,
    pub model: Seq<char>,
    pub base_url: Option<Seq<char>>,
    pub api_key_header: Option<Seq<char>>,
    pub thinking: Option<ThinkingView>,
    pub context_window_size: u64,
}

impl View for ResolvedProviderConfig {
    type V = ResolvedView;

    open spec fn view(&self) -> ResolvedView {
        ResolvedView {
            name: self.name@,
            kind: self.kind,
            api_key_env: opt_view(self.api_key_env),
            model: self.model@,
            base_url: opt_view(self.base_url),
            api_key_header: opt_view(self.api_key_header),
            thinking: opt_thinking(self.thinking),
            context_window_size: self.context_window_size,
        }
    }
}

/// A provider with one of its models.
pub open spec fn provider_with(p: ProviderConfig, m: ModelConfig) -> ResolvedView {
    ResolvedView {
        name: p.name@,
        kind: p.kind,
        api_key_env: opt_view(p.api_key_env),
        model: m.name@,
        base_url: opt_view(p.base_url),
        api_key_header: opt_view(p.api_key_header),
        thinking: opt_thinking(p.thinking),
        context_window_size: m.context_window_size,
    }
}

/// The provider and the model that the settings name: of each the first
/// with the name.
pub open spec fn resolved(config: PerryHermesConfig) -> Result<ResolvedView, ConfigErrorView> {
    let name = config.agent.default_provider@;
    let i = name_at(provider_names(config.providers@), name, 0);
    if i >= config.providers@.len() {
        Err(ConfigErrorView::UnknownProvider { name })
    } else {
        let p = config.providers@[i];
        let model = config.agent.default_model@;
        let j = name_at(model_names(p.models@), model, 0);
        if j >= p.models@.len() {
            Err(ConfigErrorView::UnknownModel { model, provider: p.name@ })
        } else {
            Ok(provider_with(p, p.models@[j]))
        }
    }
}

/// The view of a provider that may not be found.
pub open spec fn resolved_view(r: Result<ResolvedProviderConfig, ConfigError>) -> Result<
    ResolvedView,
    ConfigErrorView,
> {
    match r {
        Ok(p) => Ok(p@),
        Err(e) => Err(e@),
    }
}

fn find_provider(providers: &Vec<ProviderConfig>, name: &str) -> (r: usize)
    ensures
        r == name_at(provider_names(providers@), name@, 0),
        r <= providers@.len(),
{
    let ghost names = provider_names(providers@);
    let mut i: usize = 0;
    while i < providers.len()
        invariant
            i <= providers@.len(),
            names == provider_names(providers@),
            name_at(names, name@, 0) == name_at(names, name@, i as int),
        decreases providers.len() - i,
    {
        assert(names[i as int] == providers@[i as int].name@);
        if same(providers[i].name.as_str(), name) {
            return i;
        }
        i += 1;
    }
    i
}

fn find_model(models: &Vec<ModelConfig>, name: &str) -> (r: usize)
    ensures
        r == name_at(model_names(models@), name@, 0),
        r <= models@.len(),
{
    let ghost names = model_names(models@);
    let mut i: usize = 0;
    while i < models.len()
        invariant
            i <= models@.len(),
            names == model_names(models@),
            name_at(names, name@, 0) == name_at(names, name@, i as int),
        decreases models.len() - i,
    {
        assert(names[i as int] == models@[i as int].name@);
        if same(models[i].name.as_str(), name) {
            return i;
        }
        i += 1;
    }
    i
}

impl PerryHermesConfig {
    /// The provider and the model that the settings name.
    pub fn resolve_provider(&self) -> (r: Result<ResolvedProviderConfig, ConfigError>)
        ensures
            resolved_view(r) == resolved(*self),
    {
        let i = find_provider(&self.providers, self.agent.default_provider.as_str());
        if i >= self.providers.len() {
            return Err(
                ConfigError::UnknownProvider { name: self.agent.default_provider.clone() },
            );
        }
        let provider = &self.providers[i];
        let j = find_model(&provider.models, self.agent.default_model.as_str());
        if j >= provider.models.len() {
            return Err(
                ConfigError::UnknownModel {
                    model: self.agent.default_model.clone(),
                    provider: provider.name.clone(),
                },
            );
        }
        let model = &provider.models[j];
        Ok(
            ResolvedProviderConfig {
                name: provider.name.clone(),
                kind: provider.kind,
                api_key_env: copy_text(&provider.api_key_env),
                model: model.name.clone(),
                base_url: copy_text(&provider.base_url),
                api_key_header: copy_text(&provider.api_key_header),
                thinking: copy_thinking(&provider.thinking),
                context_window_size: model.context_window_size,
            },
        )
    }

    /// The smallest settings that work: one provider that echoes.
    pub fn for_test_echo() -> (r: Self)
        ensures
            r.providers@.len() == 1,
            is_echo_provider(r.providers@[0]),
            r.agent.default_provider@ == "local"@,
            r.agent.default_model@ == "echo"@,
            r.agent.max_iterations is None,
            r.agent.disabled_toolsets@.len() == 0,
            r.agent.context_compression_enabled,
            r.gateway.telegram is None,
            r.gateway.qqbot is None,
    {
        let mut providers: Vec<ProviderConfig> = Vec::new();
        providers.push(ProviderConfig::for_test_echo());
        let mut agent = AgentConfig::default();
        agent.default_provider = "local".to_owned();
        agent.default_model = "echo".to_owned();
        PerryHermesConfig { providers, agent, gateway: GatewayTomlConfig::default() }
    }
}

/// The provider that echoes.
pub open spec fn is_echo_provider(p: ProviderConfig) -> bool {
    &&& p.name@ == "local"@
    &&& p.kind == ProviderKind::Echo
    &&& p.api_key_env is None
    &&& p.models@.len() == 1
    &&& p.models@[0].name@ == "echo"@
    &&& p.models@[0].context_window_size == 128_000
    &&& p.base_url is None
    &&& p.api_key_header is None
    &&& p.thinking is None
}

impl ProviderConfig {
    pub fn for_test_echo() -> (r: Self)
        ensures
            is_echo_provider(r),
    {
        let mut models: Vec<ModelConfig> = Vec::new();
        models.push(ModelConfig { name: "echo".to_owned(), context_window_size: 128_000 });
        ProviderConfig {
            name: "local".to_owned(),
            kind: ProviderKind::Echo,
            api_key_env: None,
            models,
            base_url: None,
            api_key_header: None,
            thinking: None,
        }
    }
}

/// What keeps a provider from being used: one that is not local needs an
/// address, and its key where a variable is named for it.
pub open spec fn provider_fault(p: ResolvedView, api_key: Option<Seq<char>>) -> Option<
    ConfigErrorView,
> {
    if p.kind == ProviderKind::Echo {
        None
    } else if p.base_url is None {
        Some(ConfigErrorView::MissingBaseUrl { provider: p.name })
    } else {
        match p.api_key_env {
            Some(var) => if api_key is None {
                Some(ConfigErrorView::MissingApiKey { var, provider: p.name })
            } else {
                None
            },
            None => None,
        }
    }
}

impl ResolvedProviderConfig {
    /// Whether the provider can be used. `api_key` is the value of the
    /// variable `api_key_env`, if it is set.
    pub fn check(&self, api_key: &Option<String>) -> (r: Option<ConfigError>)
        ensures
            match r {
                Some(e) => provider_fault(self@, opt_view(*api_key)) == Some(e@),
                None => provider_fault(self@, opt_view(*api_key)) is None,
            },
    {
        match self.kind {
            ProviderKind::Echo => {
                return None;
            },
            _ => {},
        }
        if self.base_url.is_none() {
            return Some(ConfigError::MissingBaseUrl { provider: self.name.clone() });
        }
        match &self.api_key_env {
            Some(var) => if api_key.is_none() {
                Some(ConfigError::MissingApiKey { var: var.clone(), provider: self.name.clone() })
            } else {
                None
            },
            None => None,
        }
    }
}

// ---------------------------------------------------------------------
// Laws
// ---------------------------------------------------------------------

/// The settings resolve exactly when a provider of the name is there and
/// the first such has a model of the name; what comes out bears both names.
pub proof fn law_resolving_finds_what_is_named(config: PerryHermesConfig)
    ensures
        match resolved(config) {
            Ok(p) => p.name == config.agent.default_provider@ && p.model
                == config.agent.default_model@,
            Err(ConfigErrorView::UnknownProvider { name }) => name == config.agent.default_provider@
                && !provider_names(config.providers@).contains(name),
            Err(ConfigErrorView::UnknownModel { model, provider }) => model
                == config.agent.default_model@ && provider == config.agent.default_provider@
                && exists|i: int|
                0 <= i < config.providers@.len() && (#[trigger] config.providers@[i]).name@
                    == provider && !model_names(config.providers@[i].models@).contains(model),
            Err(_) => false,
        },
{
    let names = provider_names(config.providers@);
    let name = config.agent.default_provider@;
    lemma_name_at(names, name, 0);
    let i = name_at(names, name, 0);
    if i < names.len() {
        let p = config.providers@[i];
        assert(names[i] == p.name@);
        let models = model_names(p.models@);
        let model = config.agent.default_model@;
        lemma_name_at(models, model, 0);
        let j = name_at(models, model, 0);
        if j < models.len() {
            assert(models[j] == p.models@[j].name@);
        } else {
            assert(!models.contains(model));
            assert(config.providers@[i].name@ == name);
        }
    } else {
        assert(!names.contains(name));
    }
}

/// A value in the settings goes before the environment, and an empty
/// variable counts as none.
pub proof fn law_settings_go_before_the_environment(
    value: Seq<char>,
    from_env: Option<Seq<char>>,
)
    ensures
        credential(Some(value), from_env) == Some(value),
        credential(None, Some(Seq::<char>::empty())) is None,
        credential(None, None) is None,
        value.len() > 0 ==> credential(None, Some(value)) == Some(value),
{
}

/// Of the providers with the name the first is taken, of its models with
/// the name the first, and everything that is set for them comes along.
pub proof fn law_first_of_the_name_is_taken(config: PerryHermesConfig, i: int, j: int)
    requires
        0 <= i < config.providers@.len(),
        config.providers@[i].name@ == config.agent.default_provider@,
        forall|k: int|
            0 <= k < i ==> (#[trigger] config.providers@[k]).name@
                != config.agent.default_provider@,
        0 <= j < config.providers@[i].models@.len(),
        config.providers@[i].models@[j].name@ == config.agent.default_model@,
        forall|k: int|
            0 <= k < j ==> (#[trigger] config.providers@[i].models@[k]).name@
                != config.agent.default_model@,
    ensures
        resolved(config) is Ok,
        ({
            let p = config.providers@[i];
            let r = resolved(config)->Ok_0;
            &&& r.name == p.name@
            &&& r.kind == p.kind
            &&& r.model == p.models@[j].name@
            &&& r.context_window_size == p.models@[j].context_window_size
            &&& r.api_key_env == opt_view(p.api_key_env)
            &&& r.base_url == opt_view(p.base_url)
            &&& r.api_key_header == opt_view(p.api_key_header)
            &&& r.thinking == opt_thinking(p.thinking)
        }),
{
    let names = provider_names(config.providers@);
    let name = config.agent.default_provider@;
    lemma_name_at(names, name, 0);
    let a = name_at(names, name, 0);
    assert(names[i] == name);
    if a < i {
        assert(names[a] == config.providers@[a].name@);
    }
    assert(a == i);
    let p = config.providers@[i];
    let models = model_names(p.models@);
    let model = config.agent.default_model@;
    lemma_name_at(models, model, 0);
    let b = name_at(models, model, 0);
    assert(models[j] == model);
    if b < j {
        assert(models[b] == p.models@[b].name@);
    }
    assert(b == j);
}

/// A provider can be used exactly if it is local, or has an address and the
/// key that it needs.
pub proof fn law_usable_providers(p: ResolvedView, api_key: Option<Seq<char>>)
    ensures
        provider_fault(p, api_key) is None <==> p.kind == ProviderKind::Echo || (p.base_url is Some
            && (p.api_key_env is None || api_key is Some)),
        provider_fault(p, api_key) matches Some(ConfigErrorView::MissingBaseUrl { provider })
            ==> provider == p.name && p.base_url is None,
        provider_fault(p, api_key) matches Some(ConfigErrorView::MissingApiKey { var, provider })
            ==> provider == p.name && p.api_key_env == Some(var) && api_key is None,
{
}

/// The text about a missing credential names the platform and the variable,
/// and that about a missing key names the variable.
pub proof fn law_missing_variable_is_named(
    platform: Seq<char>,
    var: Seq<char>,
    provider: Seq<char>,
)
    ensures
        crate::text::starts_with(missing_credential(platform, var), platform),
        crate::context::summary::holds(missing_credential(platform, var), var),
        crate::context::summary::holds(
            config_error_text(ConfigErrorView::MissingApiKey { var, provider }),
            var,
        ),
        crate::context::summary::holds(
            config_error_text(ConfigErrorView::MissingApiKey { var, provider }),
            quoted(provider),
        ),
{
    let t = missing_credential(platform, var);
    assert(t.take(platform.len() as int) =~= platform);
    let at = (platform.len() + ": "@.len()) as int;
    assert(t.subrange(at, at + var.len()) =~= var);
    let e = config_error_text(ConfigErrorView::MissingApiKey { var, provider });
    let from = "provider "@.len() as int;
    assert(e.subrange(from, from + quoted(provider).len()) =~= quoted(provider));
    let then = from + quoted(provider).len() + " needs an API key: "@.len();
    assert(e.subrange(then, then + var.len()) =~= var);
}

/// The text about an error names the provider or the model that the
/// settings give.
pub proof fn law_errors_name_the_setting(name: Seq<char>, model: Seq<char>)
    ensures
        crate::context::summary::holds(
            config_error_text(ConfigErrorView::UnknownProvider { name }),
            quoted(name),
        ),
        crate::context::summary::holds(
            config_error_text(ConfigErrorView::UnknownModel { model, provider: name }),
            quoted(model),
        ),
        crate::context::summary::holds(
            config_error_text(ConfigErrorView::UnknownModel { model, provider: name }),
            quoted(name),
        ),
        crate::context::summary::holds(
            config_error_text(ConfigErrorView::MissingBaseUrl { provider: name }),
            quoted(name),
        ),
{
    crate::context::summary::lemma_holds(
        "agent.default_provider "@,
        quoted(name),
        " does not match any [[providers]].name"@,
    );
    let mid = " does not match any model for provider "@;
    let start = "agent.default_model "@;
    crate::context::summary::lemma_holds(start, quoted(model), mid + quoted(name));
    assert(start + quoted(model) + (mid + quoted(name)) =~= start + quoted(model) + mid + quoted(
        name,
    ));
    crate::context::summary::lemma_holds(start + quoted(model) + mid, quoted(name), Seq::empty());
    crate::context::summary::lemma_holds("provider "@, quoted(name), " needs a base_url"@);
}

} // verus!
