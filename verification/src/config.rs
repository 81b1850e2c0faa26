use vstd::prelude::*;

use crate::detectors::prompt::strings_view;
use crate::errors::ConfigError;
use crate::text::{all_ws, is_blank, push_all, seq_starts_with, str_starts_with, to_owned_string};

verus! {

/// What a detector does when its rule matches.
#[derive(Debug, Clone, Copy, PartialEq, Eq, Structural)]
pub enum DetectorAction {
    Block,
    Redact,
    LogOnly,
}

/// Whether the system prompt is added when missing, or its absence blocks.
#[derive(Debug, Clone, Copy, PartialEq, Eq, Structural)]
pub enum SystemPromptMode {
    Inject,
    Require,
}

impl Default for DetectorAction {
    fn default() -> (r: Self)
        ensures
            r == DetectorAction::Block,
    {
        DetectorAction::Block
    }
}

impl Default for SystemPromptMode {
    fn default() -> (r: Self)
        ensures
            r == SystemPromptMode::Inject,
    {
        SystemPromptMode::Inject
    }
}

#[derive(Debug, Clone)]
pub struct ServerConfig {
    pub bind: String,
    pub allowed_paths: Vec<String>,
    pub max_body_size: usize,
    pub max_response_buffer: usize,
    pub request_timeout_secs: u64,
    pub metrics_path: String,
    pub strict_chat_validation: bool,
}

#[derive(Debug, Clone)]
pub struct UpstreamConfig {
    pub url: String,
    pub api_key_env: String,
    pub require_api_key: bool,
}

#[derive(Debug, Clone)]
pub struct InjectionConfig {
    pub enabled: bool,
    pub action: DetectorAction,
    pub patterns: Vec<String>,
}

#[derive(Debug, Clone)]
pub struct DlpRuleConfig {
    pub name: String,
    pub pattern: String,
    pub action: DetectorAction,
}

#[derive(Debug, Clone)]
pub struct DlpConfig {
    pub enabled: bool,
    pub rules: Vec<DlpRuleConfig>,
}

#[derive(Debug, Clone)]
pub struct OutputSanitizerConfig {
    pub enabled: bool,
    pub action: DetectorAction,
}

#[derive(Debug, Clone)]
pub struct SystemPromptConfig {
    pub enabled: bool,
    pub mode: SystemPromptMode,
    pub prompt: String,
}

#[derive(Debug, Clone)]
pub struct ToolCallConfig {
    pub enabled: bool,
    pub allowed_tools: Vec<String>,
}

#[derive(Debug, Clone)]
pub struct TokenBudgetConfig {
    pub enabled: bool,
    pub max_request_tokens: usize,
    pub max_window_tokens: usize,
    pub window_secs: u64,
}

#[derive(Debug, Clone)]
pub struct RateLimiterConfig {
    pub enabled: bool,
    pub requests_per_minute: u32,
}

#[derive(Debug, Clone)]
pub struct DetectorsConfig {
    pub injection: InjectionConfig,
    pub dlp: DlpConfig,
    pub system_prompt: SystemPromptConfig,
    pub output_sanitizer: OutputSanitizerConfig,
    pub tool_call: ToolCallConfig,
    pub token_budget: TokenBudgetConfig,
    pub rate_limiter: RateLimiterConfig,
}

#[derive(Debug, Clone)]
pub struct LoggingConfig {
    pub level: String,
    pub json: bool,
    pub audit_body_chars: usize,
}

#[derive(Debug, Clone)]
pub struct Config {
    pub server: ServerConfig,
    pub upstream: UpstreamConfig,
    pub detectors: DetectorsConfig,
    pub logging: LoggingConfig,
}

// ----- defaults -----

pub fn default_true() -> (r: bool)
    ensures
        r,
{
    true
}

pub fn default_allowed_paths() -> (r: Vec<String>)
    ensures
        strings_view(r@) == seq!["/v1/chat/completions"@],
{
    let mut v: Vec<String> = Vec::new();
    v.push(to_owned_string("/v1/chat/completions"));
    assert(strings_view(v@) =~= seq!["/v1/chat/completions"@]);
    v
}

pub fn default_max_body_size() -> (r: usize)
    ensures
        r == 1024 * 1024,
{
    1024 * 1024
}

pub fn default_max_response_buffer() -> (r: usize)
    ensures
        r == 32 * 1024,
{
    32 * 1024
}

pub fn default_request_timeout_secs() -> (r: u64)
    ensures
        r == 60,
{
    60
}

pub fn default_metrics_path() -> (r: String)
    ensures
        r@ == "/metrics"@,
{
    to_owned_string("/metrics")
}

pub fn default_api_key_env() -> (r: String)
    ensures
        r@ == "OPENAI_API_KEY"@,
{
    to_owned_string("OPENAI_API_KEY")
}

pub fn default_max_request_tokens() -> (r: usize)
    ensures
        r == 8192,
{
    8192
}

pub fn default_max_window_tokens() -> (r: usize)
    ensures
        r == 50_000,
{
    50_000
}

pub fn default_window_secs() -> (r: u64)
    ensures
        r == 3600,
{
    3600
}

pub fn default_requests_per_minute() -> (r: u32)
    ensures
        r == 60,
{
    60
}

pub fn default_log_level() -> (r: String)
    ensures
        r@ == "info"@,
{
    to_owned_string("info")
}

pub fn default_audit_body_chars() -> (r: usize)
    ensures
        r == 2048,
{
    2048
}

pub open spec fn default_injection_patterns_spec() -> Seq<Seq<char>> {
    seq![
        "ignore previous instructions"@,
        "disregard all prior instructions"@,
        "reveal your system prompt"@,
        "developer mode"@,
        "jailbreak"@,
        "do anything now"@,
        "disable safety"@,
    ]
}

pub fn default_injection_patterns() -> (r: Vec<String>)
    ensures
        strings_view(r@) == default_injection_patterns_spec(),
{
    let mut v: Vec<String> = Vec::new();
    v.push(to_owned_string("ignore previous instructions"));
    v.push(to_owned_string("disregard all prior instructions"));
    v.push(to_owned_string("reveal your system prompt"));
    v.push(to_owned_string("developer mode"));
    v.push(to_owned_string("jailbreak"));
    v.push(to_owned_string("do anything now"));
    v.push(to_owned_string("disable safety"));
    assert(strings_view(v@) =~= default_injection_patterns_spec());
    v
}

/// A rule's name, pattern and action as plain values.
pub open spec fn rule_view(r: DlpRuleConfig) -> (Seq<char>, Seq<char>, DetectorAction) {
    (r.name@, r.pattern@, r.action)
}

pub open spec fn rules_view(rs: Seq<DlpRuleConfig>) -> Seq<(Seq<char>, Seq<char>, DetectorAction)> {
    Seq::new(rs.len(), |i: int| rule_view(rs[i]))
}

pub open spec fn default_dlp_rules_spec() -> Seq<(Seq<char>, Seq<char>, DetectorAction)> {
    seq![
        ("ssn"@, "\\b\\d{3}-\\d{2}-\\d{4}\\b"@, DetectorAction::Redact),
        ("credit_card"@, "\\b(?:\\d[ -]*?){13,19}\\b"@, DetectorAction::Block),
        (
            "email"@,
            "\\b[A-Za-z0-9._%+-]+@[A-Za-z0-9.-]+\\.[A-Za-z]{2,}\\b"@,
            DetectorAction::Redact,
        ),
        ("api_key"@, "\\b(?:sk|pk|rk|xox[baprs])-[-A-Za-z0-9_]{16,}\\b"@, DetectorAction::Block),
    ]
}

fn dlp_rule(name: &str, pattern: &str, action: DetectorAction) -> (r: DlpRuleConfig)
    ensures
        rule_view(r) == (name@, pattern@, action),
{
    DlpRuleConfig { name: to_owned_string(name), pattern: to_owned_string(pattern), action }
}

/// The built-in DLP rules: US social security numbers and e-mail addresses
/// are redacted, card numbers and API keys are blocked.
pub fn default_dlp_rules() -> (r: Vec<DlpRuleConfig>)
    ensures
        rules_view(r@) == default_dlp_rules_spec(),
{
    let mut v: Vec<DlpRuleConfig> = Vec::new();
    v.push(dlp_rule("ssn", "\\b\\d{3}-\\d{2}-\\d{4}\\b", DetectorAction::Redact));
    v.push(dlp_rule("credit_card", "\\b(?:\\d[ -]*?){13,19}\\b", DetectorAction::Block));
    v.push(
        dlp_rule(
            "email",
            "\\b[A-Za-z0-9._%+-]+@[A-Za-z0-9.-]+\\.[A-Za-z]{2,}\\b",
            DetectorAction::Redact,
        ),
    );
    v.push(
        dlp_rule(
            "api_key",
            "\\b(?:sk|pk|rk|xox[baprs])-[-A-Za-z0-9_]{16,}\\b",
            DetectorAction::Block,
        ),
    );
    assert(rules_view(v@) =~= default_dlp_rules_spec());
    v
}

impl Default for InjectionConfig {
    fn default() -> (r: Self)
        ensures
            r.enabled,
            r.action == DetectorAction::Block,
            strings_view(r.patterns@) == default_injection_patterns_spec(),
    {
        InjectionConfig {
            enabled: true,
            action: DetectorAction::Block,
            patterns: default_injection_patterns(),
        }
    }
}

impl Default for DlpConfig {
    fn default() -> (r: Self)
        ensures
            r.enabled,
            rules_view(r.rules@) == default_dlp_rules_spec(),
    {
        DlpConfig { enabled: true, rules: default_dlp_rules() }
    }
}

impl Default for OutputSanitizerConfig {
    fn default() -> (r: Self)
        ensures
            r.enabled,
            r.action == DetectorAction::Redact,
    {
        OutputSanitizerConfig { enabled: true, action: DetectorAction::Redact }
    }
}

impl Default for ToolCallConfig {
    fn default() -> (r: Self)
        ensures
            r.enabled,
            r.allowed_tools@.len() == 0,
    {
        ToolCallConfig { enabled: true, allowed_tools: Vec::new() }
    }
}

impl Default for SystemPromptConfig {
    fn default() -> (r: Self)
        ensures
            !r.enabled,
            r.mode == SystemPromptMode::Inject,
            r.prompt@.len() == 0,
    {
        SystemPromptConfig { enabled: false, mode: SystemPromptMode::Inject, prompt: String::new() }
    }
}

impl Default for TokenBudgetConfig {
    fn default() -> (r: Self)
        ensures
            r.enabled,
            r.max_request_tokens == 8192,
            r.max_window_tokens == 50_000,
            r.window_secs == 3600,
    {
        TokenBudgetConfig {
            enabled: true,
            max_request_tokens: default_max_request_tokens(),
            max_window_tokens: default_max_window_tokens(),
            window_secs: default_window_secs(),
        }
    }
}

impl Default for RateLimiterConfig {
    fn default() -> (r: Self)
        ensures
            r.enabled,
            r.requests_per_minute == 60,
    {
        RateLimiterConfig { enabled: true, requests_per_minute: default_requests_per_minute() }
    }
}

// ----- validation -----

/// What `url::Url::parse` makes of a text: whether the parsed URL has a query
/// and whether it has a fragment, or the parse error's message.
pub uninterp spec fn url_parse_outcome(text: Seq<char>) -> Result<(bool, bool), Seq<char>>;

/// Calls `url::Url::parse` and reports whether the URL it yields has a query
/// (`Url::query`) and a fragment (`Url::fragment`), or the parse error's text.
/// The contract names the outcome and says nothing more of it.
#[verifier::external_body]
fn parse_url(text: &str) -> (r: Result<(bool, bool), String>)
    ensures
        match r {
            Ok(p) => url_parse_outcome(text@) == Ok::<(bool, bool), Seq<char>>(p),
            Err(m) => url_parse_outcome(text@) == Err::<(bool, bool), Seq<char>>(m@),
        },
{
    match url::Url::parse(text) {
        Ok(u) => Ok((u.query().is_some(), u.fragment().is_some())),
        Err(e) => Err(e.to_string()),
    }
}

/// A path entry that is blank or not absolute.
pub open spec fn bad_path(p: Seq<char>) -> bool {
    all_ws(p) || !seq_starts_with(p, "/"@)
}

pub open spec fn max_strict_body_size() -> nat {
    8 * 1024 * 1024
}

/// The first rule of `Config::validate` that fails before the upstream URL
/// is parsed, if any.
pub open spec fn local_config_error(c: Config) -> Option<Seq<char>> {
    if all_ws(c.server.bind@) {
        Some("server.bind cannot be empty"@)
    } else if exists|i: int|
        0 <= i < c.server.allowed_paths@.len() && #[trigger] bad_path(
            c.server.allowed_paths@[i]@,
        ) {
        Some("server.allowed_paths entries must be non-empty absolute paths"@)
    } else if c.server.max_body_size == 0 {
        Some("server.max_body_size must be greater than zero"@)
    } else if c.server.max_response_buffer == 0 {
        Some("server.max_response_buffer must be greater than zero"@)
    } else if c.server.strict_chat_validation && c.server.max_body_size > max_strict_body_size() {
        Some(
            "server.max_body_size should stay at or below 8MiB when strict chat validation is enabled"@,
        )
    } else {
        None
    }
}

/// The verdict of `Config::validate` given what parsing the upstream URL gave.
pub open spec fn config_error(c: Config, url: Result<(bool, bool), Seq<char>>) -> Option<
    Seq<char>,
> {
    if local_config_error(c) is Some {
        local_config_error(c)
    } else {
        match url {
            Err(m) => Some("invalid upstream.url: "@ + m),
            Ok((has_query, has_fragment)) => if has_query || has_fragment {
                Some("upstream.url must not contain a query string or fragment"@)
            } else if c.upstream.require_api_key && all_ws(c.upstream.api_key_env@) {
                Some(
                    "upstream.api_key_env cannot be empty when upstream.require_api_key is true"@,
                )
            } else {
                None
            },
        }
    }
}

fn invalid(m: &str) -> (r: ConfigError)
    ensures
        r matches ConfigError::Invalid(s) && s@ == m@,
{
    ConfigError::Invalid(to_owned_string(m))
}

impl Config {
    /// The checks of `validate` that need no URL parsing.
    #[verifier::loop_isolation(false)]
    pub fn validate_local(&self) -> (r: Result<(), ConfigError>)
        ensures
            match r {
                Ok(()) => local_config_error(*self) is None,
                Err(e) => e matches ConfigError::Invalid(m) && local_config_error(*self) == Some(
                    m@,
                ),
            },
    {
        if is_blank(self.server.bind.as_str()) {
            return Err(invalid("server.bind cannot be empty"));
        }
        let paths = &self.server.allowed_paths;
        let mut i: usize = 0;
        while i < paths.len()
            invariant
                i <= paths.len(),
                paths == self.server.allowed_paths,
                forall|k: int| 0 <= k < i ==> !#[trigger] bad_path(paths@[k]@),
            decreases paths.len() - i,
        {
            let p = paths[i].as_str();
            if is_blank(p) || !str_starts_with(p, "/") {
                assert(bad_path(paths@[i as int]@));
                return Err(invalid("server.allowed_paths entries must be non-empty absolute paths"));
            }
            i += 1;
        }
        if self.server.max_body_size == 0 {
            return Err(invalid("server.max_body_size must be greater than zero"));
        }
        if self.server.max_response_buffer == 0 {
            return Err(invalid("server.max_response_buffer must be greater than zero"));
        }
        if self.server.strict_chat_validation && self.server.max_body_size > 8 * 1024 * 1024 {
            return Err(
                invalid(
                    "server.max_body_size should stay at or below 8MiB when strict chat validation is enabled",
                ),
            );
        }
        Ok(())
    }

    /// `validate` once the upstream URL has been parsed: `url` holds whether
    /// it has a query and a fragment, or the parse error's text.
    pub fn validate_with_url(&self, url: Result<(bool, bool), String>) -> (r: Result<
        (),
        ConfigError,
    >)
        ensures
            ({
                let u = match url {
                    Ok(p) => Ok::<(bool, bool), Seq<char>>(p),
                    Err(m) => Err::<(bool, bool), Seq<char>>(m@),
                };
                match r {
                    Ok(()) => config_error(*self, u) is None,
                    Err(e) => e matches ConfigError::Invalid(m) && config_error(*self, u) == Some(
                        m@,
                    ),
                }
            }),
    {
        self.validate_local()?;
        match url {
            Err(m) => {
                let mut s = to_owned_string("invalid upstream.url: ");
                push_all(&mut s, m.as_str());
                Err(ConfigError::Invalid(s))
            },
            Ok((has_query, has_fragment)) => {
                if has_query || has_fragment {
                    return Err(invalid("upstream.url must not contain a query string or fragment"));
                }
                if self.upstream.require_api_key && is_blank(self.upstream.api_key_env.as_str()) {
                    return Err(
                        invalid(
                            "upstream.api_key_env cannot be empty when upstream.require_api_key is true",
                        ),
                    );
                }
                Ok(())
            },
        }
    }

    /// `Config::validate`: every rule of a loadable configuration, with the
    /// upstream URL parsed by the `url` crate when the earlier rules pass.
    pub fn validate(&self) -> (r: Result<(), ConfigError>)
        ensures
            local_config_error(*self) is Some ==> (r matches Err(ConfigError::Invalid(m))
                && local_config_error(*self) == Some(m@)),
            local_config_error(*self) is None ==> match r {
                Ok(()) => config_error(*self, url_parse_outcome(self.upstream.url@)) is None,
                Err(e) => e matches ConfigError::Invalid(m) && config_error(
                    *self,
                    url_parse_outcome(self.upstream.url@),
                ) == Some(m@),
            },
    {
        self.validate_local()?;
        let url = parse_url(self.upstream.url.as_str());
        self.validate_with_url(url)
    }

    /// `apply_env_overrides`: each value read from `LLMFW_BIND`,
    /// `LLMFW_UPSTREAM_URL`, `LLMFW_UPSTREAM_API_KEY_ENV` and
    /// `LLMFW_LOG_LEVEL` (when set) replaces its setting.
    pub fn apply_env_overrides(
        &mut self,
        bind: Option<String>,
        upstream_url: Option<String>,
        api_key_env: Option<String>,
        log_level: Option<String>,
    )
        ensures
            final(self).server.bind == (match bind {
                Some(v) => v,
                None => old(self).server.bind,
            }),
            final(self).upstream.url == (match upstream_url {
                Some(v) => v,
                None => old(self).upstream.url,
            }),
            final(self).upstream.api_key_env == (match api_key_env {
                Some(v) => v,
                None => old(self).upstream.api_key_env,
            }),
            final(self).logging.level == (match log_level {
                Some(v) => v,
                None => old(self).logging.level,
            }),
            final(self).server.allowed_paths == old(self).server.allowed_paths,
            final(self).server.max_body_size == old(self).server.max_body_size,
            final(self).server.max_response_buffer == old(self).server.max_response_buffer,
            final(self).server.request_timeout_secs == old(self).server.request_timeout_secs,
            final(self).server.metrics_path == old(self).server.metrics_path,
            final(self).server.strict_chat_validation == old(self).server.strict_chat_validation,
            final(self).upstream.require_api_key == old(self).upstream.require_api_key,
            final(self).detectors == old(self).detectors,
            final(self).logging.json == old(self).logging.json,
            final(self).logging.audit_body_chars == old(self).logging.audit_body_chars,
    {
        if let Some(v) = bind {
            self.server.bind = v;
        }
        if let Some(v) = upstream_url {
            self.upstream.url = v;
        }
        if let Some(v) = api_key_env {
            self.upstream.api_key_env = v;
        }
        if let Some(v) = log_level {
            self.logging.level = v;
        }
    }
}

} // verus!
