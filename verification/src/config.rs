//! Configuration: what it holds, its defaults and its rules.

use crate::addr;
use crate::addr::BindAddr;
use crate::document;
use crate::document::{Edit, FileModel};
use crate::paths;
use crate::text;
use vstd::prelude::*;

verus! {

/// The configuration file that is written out at first, with its explanations.
pub const DEFAULT_CONFIG_TOML: &'static str = r#"# pardon 配置文件
# 路径：~/.config/pardon/config.toml（可用 PARDON_CONFIG 环境变量覆盖）
#
# 默认引擎：llm | youdao | bing。注意：有道/Bing 的免费 web 端点已于
# 2026-09 失效，句子翻译需配置 LLM provider（见下方示例）；
# 查词（离线词典）与发音不受影响。
default_engine = "youdao"

[llm]
# default_provider 指向下方 providers[].id；留空 = 不启用 LLM。
default_provider = ""
providers = []

# LLM provider 示例（取消注释并按需修改）：
#
# [[llm.providers]]
# id = "ds"                            # 唯一标识，default_provider 引用它
# type = "openai"                      # openai | anthropic | ollama
# base_url = "https://api.deepseek.com/v1"
# model = "deepseek-chat"
# # key 二选一：api_key 明文（自担风险）优先；api_key_env 指向环境变量名。
# api_key_env = "DEEPSEEK_API_KEY"
# # system_prompt / user_prompt_template 可选，覆盖内置提示词。
#
# [[llm.providers]]
# id = "local"
# type = "ollama"                      # Ollama 无需 api_key
# base_url = "http://127.0.0.1:11434/v1"
# model = "qwen2.5:7b"
"#;

/// The whole configuration.
#[derive(Debug, Clone, PartialEq)]
pub struct AppConfig {
    /// The engine to translate with first: `llm`, `youdao` or `bing`.
    pub default_engine: String,
    pub llm: LlmConfig,
    pub daemon: DaemonConfig,
}

/// Language models.
#[derive(Debug, Clone, PartialEq)]
pub struct LlmConfig {
    /// The `id` of the provider to use; empty for none.
    pub default_provider: String,
    pub providers: Vec<ProviderConfig>,
}

/// One language model provider.
#[derive(Debug, Clone, PartialEq)]
pub struct ProviderConfig {
    pub id: String,
    pub provider_type: ProviderType,
    pub base_url: String,
    pub model: String,
    /// The key itself; it wins over `api_key_env`.
    pub api_key: Option<String>,
    /// The environment variable that holds the key.
    pub api_key_env: Option<String>,
    pub system_prompt: Option<String>,
    pub user_prompt_template: Option<String>,
}

/// The protocol that a provider speaks.
#[derive(Debug, Clone, Copy, PartialEq, Eq, Structural)]
pub enum ProviderType {
    Openai,
    Anthropic,
    Ollama,
}

/// The clipboard daemon.
#[derive(Debug, Clone, PartialEq)]
pub struct DaemonConfig {
    /// Where the trigger listens; a loopback address.
    pub http_bind: String,
    /// Whether copied text is translated by itself.
    pub auto_translate: bool,
    /// Longer texts, counted in bytes, are not translated by themselves.
    pub max_text_bytes: usize,
    /// How long the same text is ignored, in milliseconds.
    pub dedup_window_ms: u64,
    /// Whether a translation is written back to the clipboard.
    pub copy_translation: bool,
    /// How long a notification stays, in milliseconds.
    pub notify_timeout_ms: u32,
    /// Whether the notification of a word card has a line of badges for learners.
    pub show_word_badge: bool,
    /// Whether a translation goes to a listening window instead of a notification.
    pub popup: bool,
}

/// What an [`AppConfig`] says.
#[verifier::ext_equal]
pub struct ConfigModel {
    pub default_engine: Seq<char>,
    pub llm: LlmModel,
    pub daemon: DaemonModel,
}

/// What an [`LlmConfig`] says.
#[verifier::ext_equal]
pub struct LlmModel {
    pub default_provider: Seq<char>,
    pub providers: Seq<ProviderModel>,
}

/// What a [`ProviderConfig`] says.
#[verifier::ext_equal]
pub struct ProviderModel {
    pub id: Seq<char>,
    pub provider_type: ProviderType,
    pub base_url: Seq<char>,
    pub model: Seq<char>,
    pub api_key: Option<Seq<char>>,
    pub api_key_env: Option<Seq<char>>,
    pub system_prompt: Option<Seq<char>>,
    pub user_prompt_template: Option<Seq<char>>,
}

/// What a [`DaemonConfig`] says.
#[verifier::ext_equal]
pub struct DaemonModel {
    pub http_bind: Seq<char>,
    pub auto_translate: bool,
    pub max_text_bytes: usize,
    pub dedup_window_ms: u64,
    pub copy_translation: bool,
    pub notify_timeout_ms: u32,
    pub show_word_badge: bool,
    pub popup: bool,
}

impl DeepView for ProviderConfig {
    type V = ProviderModel;

    open spec fn deep_view(&self) -> ProviderModel {
        ProviderModel {
            id: self.id@,
            provider_type: self.provider_type,
            base_url: self.base_url@,
            model: self.model@,
            api_key: self.api_key.deep_view(),
            api_key_env: self.api_key_env.deep_view(),
            system_prompt: self.system_prompt.deep_view(),
            user_prompt_template: self.user_prompt_template.deep_view(),
        }
    }
}

impl DeepView for LlmConfig {
    type V = LlmModel;

    open spec fn deep_view(&self) -> LlmModel {
        LlmModel {
            default_provider: self.default_provider@,
            providers: self.providers.deep_view(),
        }
    }
}

impl DeepView for DaemonConfig {
    type V = DaemonModel;

    open spec fn deep_view(&self) -> DaemonModel {
        DaemonModel {
            http_bind: self.http_bind@,
            auto_translate: self.auto_translate,
            max_text_bytes: self.max_text_bytes,
            dedup_window_ms: self.dedup_window_ms,
            copy_translation: self.copy_translation,
            notify_timeout_ms: self.notify_timeout_ms,
            show_word_badge: self.show_word_badge,
            popup: self.popup,
        }
    }
}

impl DeepView for AppConfig {
    type V = ConfigModel;

    open spec fn deep_view(&self) -> ConfigModel {
        ConfigModel {
            default_engine: self.default_engine@,
            llm: self.llm.deep_view(),
            daemon: self.daemon.deep_view(),
        }
    }
}

/// Why a configuration cannot be used.
#[derive(Debug, Clone, PartialEq)]
pub enum ConfigError {
    /// A rule is broken by the field at this path.
    Invalid { field: String, reason: String },
    /// The file cannot be read.
    Io(String),
    /// The file is not TOML, or not of the expected shape.
    Parse(String),
}

/// The text of an error.
pub open spec fn error_text(e: ConfigError) -> Seq<char> {
    match e {
        ConfigError::Invalid { field, reason } => "config invalid: "@ + field@ + ": "@ + reason@,
        ConfigError::Io(why) => "config io error: "@ + why@,
        ConfigError::Parse(why) => "config parse error: "@ + why@,
    }
}

impl ConfigError {
    /// The text of the error.
    pub fn message(&self) -> (r: String)
        ensures
            r@ == error_text(*self),
    {
        match self {
            ConfigError::Invalid { field, reason } => {
                let mut r = text::cat("config invalid: ", field);
                r.append(": ");
                r.append(reason);
                r
            },
            ConfigError::Io(why) => text::cat("config io error: ", why),
            ConfigError::Parse(why) => text::cat("config parse error: ", why),
        }
    }
}

// Switches

/// Whether `r` is what setting a switch in a file amounts to: the text of the
/// file with the switch set, or the reason why there is none.
pub open spec fn switch_outcome(
    file: Result<FileModel, Seq<char>>,
    table: Seq<char>,
    key: Seq<char>,
    value: bool,
    r: Result<String, ConfigError>,
) -> bool {
    match file {
        Err(why) => r matches Err(ConfigError::Parse(w)) && w@ == why,
        Ok(f) => if document::blocked(f, table) {
            r matches Err(ConfigError::Invalid { field, reason }) && field@ == table && reason@
                == "must be a table"@
        } else {
            r matches Ok(t) && document::shows_switch(t@, f, table, key, value)
        },
    }
}

/// The text of a file with a switch set, everything else in it left as it is. A
/// file that is missing counts as empty.
pub fn set_bool(file: &Option<String>, table: &str, key: &str, value: bool) -> (r: Result<
    String,
    ConfigError,
>)
    ensures
        switch_outcome(
            document::toml_of(
                match file {
                    Some(t) => t@,
                    None => Seq::empty(),
                },
            ),
            table@,
            key@,
            value,
            r,
        ),
{
    let done = match file {
        Some(t) => document::edit(t, table, key, value),
        None => {
            let none = String::new();
            assert(none@ =~= Seq::<char>::empty());
            document::edit(&none, table, key, value)
        },
    };
    match done {
        Edit::Text(t) => Ok(t),
        Edit::NotToml(why) => Err(ConfigError::Parse(why)),
        Edit::NoTable => Err(invalid(table, "must be a table")),
    }
}

// Defaults

/// The daemon without any setting.
pub open spec fn default_daemon() -> DaemonModel {
    DaemonModel {
        http_bind: "127.0.0.1:7377"@,
        auto_translate: true,
        max_text_bytes: 5120,
        dedup_window_ms: 10_000,
        copy_translation: false,
        notify_timeout_ms: 5000,
        show_word_badge: false,
        popup: false,
    }
}

/// The configuration without any setting.
pub open spec fn default_config() -> ConfigModel {
    ConfigModel {
        default_engine: "youdao"@,
        llm: LlmModel { default_provider: Seq::empty(), providers: Seq::empty() },
        daemon: default_daemon(),
    }
}

impl Default for LlmConfig {
    fn default() -> (r: LlmConfig)
        ensures
            r.deep_view() == (LlmModel {
                default_provider: Seq::empty(),
                providers: Seq::empty(),
            }),
    {
        let providers: Vec<ProviderConfig> = Vec::new();
        assert(providers.deep_view() =~= Seq::<ProviderModel>::empty());
        let default_provider = String::new();
        assert(default_provider@ =~= Seq::<char>::empty());
        LlmConfig { default_provider, providers }
    }
}

impl Default for DaemonConfig {
    fn default() -> (r: DaemonConfig)
        ensures
            r.deep_view() == default_daemon(),
    {
        DaemonConfig {
            http_bind: text::copy("127.0.0.1:7377"),
            auto_translate: true,
            max_text_bytes: 5120,
            dedup_window_ms: 10_000,
            copy_translation: false,
            notify_timeout_ms: 5000,
            show_word_badge: false,
            popup: false,
        }
    }
}

impl Default for AppConfig {
    fn default() -> (r: AppConfig)
        ensures
            r.deep_view() == default_config(),
    {
        AppConfig {
            default_engine: text::copy("youdao"),
            llm: LlmConfig::default(),
            daemon: DaemonConfig::default(),
        }
    }
}

// Rules

/// What Rust's `Debug` writes for a string.
pub uninterp spec fn debug_text(s: Seq<char>) -> Seq<char>;

/// Whether `s` is made of printable ASCII characters alone, quotes and
/// backslashes apart.
pub open spec fn is_plain(s: Seq<char>) -> bool {
    forall|i: int|
        0 <= i < s.len() ==> ' ' <= #[trigger] s[i] && s[i] <= '~' && s[i] != '"' && s[i] != '\''
            && s[i] != '\\'
}

/// A string in quotes: as it is where it is plain, else as `Debug` writes it.
pub open spec fn in_quotes(s: Seq<char>) -> Seq<char> {
    if is_plain(s) {
        "\""@ + s + "\""@
    } else {
        debug_text(s)
    }
}

/// The `Debug` form of a string as `format!` writes it: in quotes, with escapes
/// for quotes, backslashes and what cannot be printed; a plain string needs none.
/// It depends on the string alone.
#[verifier::external_body]
pub(crate) fn debug_of(s: &str) -> (r: String)
    ensures
        r@ == debug_text(s@),
        is_plain(s@) ==> r@ == "\""@ + s@ + "\""@,
{
    format!("{:?}", s)
}

/// A field and what is wrong with it.
#[verifier::ext_equal]
pub struct Problem {
    pub field: Seq<char>,
    pub reason: Seq<char>,
}

/// The path of a field of the `i`-th provider.
pub open spec fn provider_field(i: int, name: Seq<char>) -> Seq<char> {
    "llm.providers["@ + text::decimal(i as nat) + "]."@ + name
}

/// What is wrong with the engine.
pub open spec fn engine_problem(engine: Seq<char>) -> Option<Problem> {
    if engine == "llm"@ || engine == "youdao"@ || engine == "bing"@ {
        None
    } else {
        Some(
            Problem {
                field: "default_engine"@,
                reason: "unknown engine "@ + in_quotes(engine)
                    + ", expected one of llm/youdao/bing"@,
            },
        )
    }
}

/// Whether an earlier provider has the `id` of the `i`-th.
pub open spec fn repeats(ps: Seq<ProviderModel>, i: int) -> bool {
    exists|j: int| 0 <= j < i && (#[trigger] ps[j]).id == ps[i].id
}

/// What is wrong with the `i`-th provider.
pub open spec fn provider_problem(ps: Seq<ProviderModel>, i: int) -> Option<Problem> {
    if ps[i].id.len() == 0 {
        Some(Problem { field: provider_field(i, "id"@), reason: "id must be non-empty"@ })
    } else if repeats(ps, i) {
        Some(
            Problem {
                field: provider_field(i, "id"@),
                reason: "duplicate provider id "@ + in_quotes(ps[i].id),
            },
        )
    } else if ps[i].base_url.len() == 0 {
        Some(
            Problem {
                field: provider_field(i, "base_url"@),
                reason: "base_url must be non-empty"@,
            },
        )
    } else if ps[i].model.len() == 0 {
        Some(Problem { field: provider_field(i, "model"@), reason: "model must be non-empty"@ })
    } else {
        None
    }
}

/// What is wrong with the first provider, from the `i`-th on, that something is
/// wrong with.
pub open spec fn providers_problem(ps: Seq<ProviderModel>, i: int) -> Option<Problem>
    decreases ps.len() - i,
{
    if i >= ps.len() {
        None
    } else if provider_problem(ps, i) is Some {
        provider_problem(ps, i)
    } else {
        providers_problem(ps, i + 1)
    }
}

/// Whether some provider has this `id`.
pub open spec fn has_provider(ps: Seq<ProviderModel>, id: Seq<char>) -> bool {
    exists|i: int| 0 <= i < ps.len() && (#[trigger] ps[i]).id == id
}

/// What is wrong with the default provider where the engine is `llm`.
pub open spec fn default_provider_problem(llm: LlmModel) -> Option<Problem> {
    if llm.default_provider.len() == 0 {
        Some(
            Problem {
                field: "llm.default_provider"@,
                reason: "must name a providers[].id when default_engine = \"llm\""@,
            },
        )
    } else if !has_provider(llm.providers, llm.default_provider) {
        Some(
            Problem {
                field: "llm.default_provider"@,
                reason: "no provider with id "@ + in_quotes(llm.default_provider),
            },
        )
    } else {
        None
    }
}

/// What is wrong with an address to listen on.
pub open spec fn bind_problem(bind: Seq<char>) -> Option<Problem> {
    match addr::socket(bind) {
        None => Some(
            Problem {
                field: "daemon.http_bind"@,
                reason: "not a valid socket address (invalid socket address syntax)"@,
            },
        ),
        Some(a) => if addr::loopback(a.ip) {
            None
        } else {
            Some(
                Problem {
                    field: "daemon.http_bind"@,
                    reason: "must be a loopback address (127.x.x.x / ::1)"@,
                },
            )
        },
    }
}

/// What is wrong with the daemon.
pub open spec fn daemon_problem(d: DaemonModel) -> Option<Problem> {
    if bind_problem(d.http_bind) is Some {
        bind_problem(d.http_bind)
    } else if d.max_text_bytes == 0 {
        Some(Problem { field: "daemon.max_text_bytes"@, reason: "must be >= 1"@ })
    } else if d.dedup_window_ms == 0 {
        Some(Problem { field: "daemon.dedup_window_ms"@, reason: "must be >= 1"@ })
    } else {
        None
    }
}

/// The first thing that is wrong with a configuration.
pub open spec fn problem(c: ConfigModel) -> Option<Problem> {
    if engine_problem(c.default_engine) is Some {
        engine_problem(c.default_engine)
    } else if providers_problem(c.llm.providers, 0) is Some {
        providers_problem(c.llm.providers, 0)
    } else if c.default_engine == "llm"@ && default_provider_problem(c.llm) is Some {
        default_provider_problem(c.llm)
    } else {
        daemon_problem(c.daemon)
    }
}

/// Whether a result reports exactly the given problem.
pub open spec fn reports<T>(r: Result<T, ConfigError>, p: Option<Problem>) -> bool {
    match r {
        Ok(_) => p is None,
        Err(e) => match e {
            ConfigError::Invalid { field, reason } => p == Some(
                Problem { field: field@, reason: reason@ },
            ),
            _ => false,
        },
    }
}

fn invalid(field: &str, reason: &str) -> (r: ConfigError)
    ensures
        r matches ConfigError::Invalid { field: f, reason: w } && f@ == field@ && w@ == reason@,
{
    ConfigError::Invalid { field: text::copy(field), reason: text::copy(reason) }
}

fn invalid_provider(i: usize, name: &str, reason: &str) -> (r: ConfigError)
    ensures
        r matches ConfigError::Invalid { field: f, reason: w } && f@ == provider_field(
            i as int,
            name@,
        ) && w@ == reason@,
{
    let mut field = text::cat("llm.providers[", &text::decimal_text(i as u128));
    field.append("].");
    field.append(name);
    ConfigError::Invalid { field, reason: text::copy(reason) }
}

fn id_before(ps: &Vec<ProviderConfig>, id: &str, to: usize) -> (r: bool)
    requires
        to <= ps@.len(),
    ensures
        r == exists|j: int| 0 <= j < to && (#[trigger] ps.deep_view()[j]).id == id@,
{
    let mut j: usize = 0;
    while j < to
        invariant
            j <= to <= ps@.len(),
            forall|k: int| 0 <= k < j ==> (#[trigger] ps.deep_view()[k]).id != id@,
        decreases to - j,
    {
        assert(ps.deep_view()[j as int].id == ps@[j as int].id@);
        if text::same(&ps[j].id, id) {
            return true;
        }
        j += 1;
    }
    false
}

fn check_provider(ps: &Vec<ProviderConfig>, i: usize) -> (r: Result<(), ConfigError>)
    requires
        i < ps@.len(),
    ensures
        reports(r, provider_problem(ps.deep_view(), i as int)),
{
    let p = &ps[i];
    assert(ps.deep_view()[i as int] == p.deep_view());
    if text::empty(&p.id) {
        return Err(invalid_provider(i, "id", "id must be non-empty"));
    }
    if id_before(ps, &p.id, i) {
        let reason = text::cat("duplicate provider id ", &debug_of(&p.id));
        return Err(invalid_provider(i, "id", &reason));
    }
    if text::empty(&p.base_url) {
        return Err(invalid_provider(i, "base_url", "base_url must be non-empty"));
    }
    if text::empty(&p.model) {
        return Err(invalid_provider(i, "model", "model must be non-empty"));
    }
    Ok(())
}

fn check_bind(bind: &str) -> (r: Result<BindAddr, ConfigError>)
    ensures
        reports(r, bind_problem(bind@)),
        r matches Ok(a) ==> addr::socket(bind@) == Some(a.deep_view()),
{
    match addr::parse_socket(bind) {
        None => Err(
            invalid(
                "daemon.http_bind",
                "not a valid socket address (invalid socket address syntax)",
            ),
        ),
        Some(a) => if a.ip.is_loopback() {
            Ok(a)
        } else {
            Err(invalid("daemon.http_bind", "must be a loopback address (127.x.x.x / ::1)"))
        },
    }
}

impl AppConfig {
    /// Checks every rule; the error names the first field that breaks one.
    pub fn validate(&self) -> (r: Result<(), ConfigError>)
        ensures
            reports(r, problem(self.deep_view())),
    {
        let is_llm = text::same(&self.default_engine, "llm");
        if !is_llm && !text::same(&self.default_engine, "youdao") && !text::same(
            &self.default_engine,
            "bing",
        ) {
            let mut reason = text::cat("unknown engine ", &debug_of(&self.default_engine));
            reason.append(", expected one of llm/youdao/bing");
            return Err(invalid("default_engine", &reason));
        }
        let ps = &self.llm.providers;
        let mut i: usize = 0;
        while i < ps.len()
            invariant
                i <= ps@.len(),
                ps == &self.llm.providers,
                engine_problem(self.default_engine@) is None,
                providers_problem(ps.deep_view(), 0) == providers_problem(ps.deep_view(), i as int),
            decreases ps@.len() - i,
        {
            match check_provider(ps, i) {
                Ok(_) => {},
                Err(e) => return Err(e),
            }
            i += 1;
        }
        if is_llm {
            if text::empty(&self.llm.default_provider) {
                return Err(
                    invalid(
                        "llm.default_provider",
                        "must name a providers[].id when default_engine = \"llm\"",
                    ),
                );
            }
            if !id_before(ps, &self.llm.default_provider, ps.len()) {
                assert(!has_provider(ps.deep_view(), self.llm.default_provider@));
                let reason = text::cat(
                    "no provider with id ",
                    &debug_of(&self.llm.default_provider),
                );
                return Err(invalid("llm.default_provider", &reason));
            }
            assert(has_provider(ps.deep_view(), self.llm.default_provider@));
        }
        match check_bind(&self.daemon.http_bind) {
            Ok(_) => {},
            Err(e) => return Err(e),
        }
        if self.daemon.max_text_bytes == 0 {
            return Err(invalid("daemon.max_text_bytes", "must be >= 1"));
        }
        if self.daemon.dedup_window_ms == 0 {
            return Err(invalid("daemon.dedup_window_ms", "must be >= 1"));
        }
        Ok(())
    }
}

impl ProviderConfig {
    /// The key of the provider: the one it holds, else what `get_env` gives for
    /// the variable that it names.
    pub fn resolve_api_key<E, F: Fn(String) -> Result<String, E>>(&self, get_env: F) -> (r: Option<
        String,
    >)
        requires
            forall|name: String| call_requires(get_env, (name,)),
        ensures
            match (self.api_key, self.api_key_env) {
                (Some(key), _) => r is Some && r->0@ == key@,
                (None, None) => r is None,
                (None, Some(var)) => exists|name: String, got: Result<String, E>|
                    {
                        &&& name@ == var@
                        &&& #[trigger] call_ensures(get_env, (name,), got)
                        &&& r == (match got {
                            Ok(key) => Some(key),
                            Err(_) => None,
                        })
                    },
            },
    {
        match &self.api_key {
            Some(key) => return Some(text::copy(key)),
            None => {},
        }
        match &self.api_key_env {
            Some(var) => {
                let name = text::copy(var);
                match get_env(name) {
                    Ok(key) => Some(key),
                    Err(_) => None,
                }
            },
            None => None,
        }
    }
}

/// The text of an override that is set and not empty, else the configured one.
pub open spec fn overridden(value: Option<Seq<char>>, configured: Seq<char>) -> Seq<char> {
    match value {
        Some(v) => if v.len() > 0 {
            v
        } else {
            configured
        },
        None => configured,
    }
}

fn override_with(value: &Option<String>, configured: &str) -> (r: String)
    ensures
        r@ == overridden(value.deep_view(), configured@),
{
    match value {
        Some(v) => if !text::empty(v) {
            text::copy(v)
        } else {
            text::copy(configured)
        },
        None => text::copy(configured),
    }
}

/// Where to listen: what the environment names, where that is not empty, else
/// what the configuration says. Either must be a loopback address.
pub fn effective_http_bind(cfg: &AppConfig, env: &Option<String>) -> (r: Result<
    BindAddr,
    ConfigError,
>)
    ensures
        reports(r, bind_problem(overridden(env.deep_view(), cfg.daemon.http_bind@))),
        r matches Ok(a) ==> addr::socket(overridden(env.deep_view(), cfg.daemon.http_bind@))
            == Some(a.deep_view()) && addr::loopback(a.ip@),
{
    let raw = override_with(env, &cfg.daemon.http_bind);
    check_bind(&raw)
}

/// The file below the configuration directory, or below the current directory
/// where there is none.
pub open spec fn default_path(dir: Option<Seq<char>>) -> Seq<char> {
    let base = match dir {
        Some(d) => d,
        None => "."@,
    };
    paths::below(paths::below(base, "pardon"@), "config.toml"@)
}

/// The configuration file for a configuration directory.
pub fn default_config_path(dir: &Option<String>) -> (r: String)
    ensures
        r@ == default_path(dir.deep_view()),
{
    let base: String = match dir {
        Some(d) => text::copy(d),
        None => text::copy("."),
    };
    paths::join(&paths::join(&base, "pardon"), "config.toml")
}

/// The configuration file: what the environment names, where that is not empty,
/// else the default.
pub fn config_path(env: &Option<String>, dir: &Option<String>) -> (r: String)
    ensures
        r@ == overridden(env.deep_view(), default_path(dir.deep_view())),
{
    override_with(env, &default_config_path(dir))
}

// Changes

fn same_opt(a: &Option<String>, b: &Option<String>) -> (r: bool)
    ensures
        r == (a.deep_view() == b.deep_view()),
{
    match (a, b) {
        (Some(x), Some(y)) => text::same(x, y),
        (None, None) => true,
        _ => false,
    }
}

fn same_type(a: ProviderType, b: ProviderType) -> (r: bool)
    ensures
        r == (a == b),
{
    match (a, b) {
        (ProviderType::Openai, ProviderType::Openai) => true,
        (ProviderType::Anthropic, ProviderType::Anthropic) => true,
        (ProviderType::Ollama, ProviderType::Ollama) => true,
        _ => false,
    }
}

fn same_provider(a: &ProviderConfig, b: &ProviderConfig) -> (r: bool)
    ensures
        r == (a.deep_view() == b.deep_view()),
{
    text::same(&a.id, &b.id) && same_type(a.provider_type, b.provider_type) && text::same(
        &a.base_url,
        &b.base_url,
    ) && text::same(&a.model, &b.model) && same_opt(&a.api_key, &b.api_key) && same_opt(
        &a.api_key_env,
        &b.api_key_env,
    ) && same_opt(&a.system_prompt, &b.system_prompt) && same_opt(
        &a.user_prompt_template,
        &b.user_prompt_template,
    )
}

fn same_llm(a: &LlmConfig, b: &LlmConfig) -> (r: bool)
    ensures
        r == (a.deep_view() == b.deep_view()),
{
    let ghost x = a.providers.deep_view();
    let ghost y = b.providers.deep_view();
    if !text::same(&a.default_provider, &b.default_provider) {
        return false;
    }
    assert(x.len() == a.providers@.len() && y.len() == b.providers@.len());
    if a.providers.len() != b.providers.len() {
        return false;
    }
    let mut i: usize = 0;
    while i < a.providers.len()
        invariant
            i <= a.providers@.len(),
            a.providers@.len() == b.providers@.len(),
            x == a.providers.deep_view(),
            y == b.providers.deep_view(),
            forall|k: int| 0 <= k < i ==> x[k] == y[k],
        decreases a.providers@.len() - i,
    {
        if !same_provider(&a.providers[i], &b.providers[i]) {
            assert(x[i as int] != y[i as int]);
            return false;
        }
        i += 1;
    }
    assert(x =~= y);
    true
}

/// Whether a change takes effect only after a restart: the engine and the
/// language models are set up once, everything else is read again.
pub fn restart_required(old_cfg: &AppConfig, new_cfg: &AppConfig) -> (r: bool)
    ensures
        r == (old_cfg.default_engine@ != new_cfg.default_engine@ || old_cfg.llm.deep_view()
            != new_cfg.llm.deep_view()),
{
    !text::same(&old_cfg.default_engine, &new_cfg.default_engine) || !same_llm(
        &old_cfg.llm,
        &new_cfg.llm,
    )
}

// Laws

proof fn lemma_no_provider_problem(ps: Seq<ProviderModel>, i: int)
    requires
        0 <= i,
        providers_problem(ps, i) is None,
    ensures
        forall|k: int| i <= k < ps.len() ==> provider_problem(ps, k) is None,
    decreases ps.len() - i,
{
    if i < ps.len() {
        lemma_no_provider_problem(ps, i + 1);
    }
}

/// In a valid configuration the engine is known, every provider has an `id` of
/// its own, an address and a model, the engine `llm` has its provider, the
/// trigger listens on a loopback address, and no limit is zero.
pub proof fn law_valid_configuration(c: ConfigModel)
    requires
        problem(c) is None,
    ensures
        c.default_engine == "llm"@ || c.default_engine == "youdao"@ || c.default_engine == "bing"@,
        forall|i: int|
            0 <= i < c.llm.providers.len() ==> (#[trigger] c.llm.providers[i]).id.len() > 0
                && c.llm.providers[i].base_url.len() > 0 && c.llm.providers[i].model.len() > 0,
        forall|i: int, j: int|
            0 <= i < j < c.llm.providers.len() ==> (#[trigger] c.llm.providers[i]).id != (
            #[trigger] c.llm.providers[j]).id,
        c.default_engine == "llm"@ ==> has_provider(c.llm.providers, c.llm.default_provider),
        addr::socket(c.daemon.http_bind) is Some,
        addr::loopback(addr::socket(c.daemon.http_bind)->0.ip),
        c.daemon.max_text_bytes > 0,
        c.daemon.dedup_window_ms > 0,
{
    lemma_no_provider_problem(c.llm.providers, 0);
    assert forall|i: int, j: int| 0 <= i < j < c.llm.providers.len() implies (
    #[trigger] c.llm.providers[i]).id != (#[trigger] c.llm.providers[j]).id by {
        assert(provider_problem(c.llm.providers, j) is None);
        if c.llm.providers[i].id == c.llm.providers[j].id {
            assert(repeats(c.llm.providers, j));
        }
    }
    assert forall|i: int| 0 <= i < c.llm.providers.len() implies (
    #[trigger] c.llm.providers[i]).id.len() > 0 && c.llm.providers[i].base_url.len() > 0
        && c.llm.providers[i].model.len() > 0 by {
        assert(provider_problem(c.llm.providers, i) is None);
    }
}

/// What holds where nothing is configured: Youdao as the engine, no language
/// model, the daemon on port 7377 of this machine, copied texts of up to 5120
/// bytes translated by themselves, the same text ignored for ten seconds, nothing
/// written back, notifications for five seconds without badges, and no popup.
pub proof fn law_defaults()
    ensures
        default_config().default_engine == "youdao"@,
        default_config().llm.default_provider.len() == 0,
        default_config().llm.providers.len() == 0,
        default_config().daemon.http_bind == "127.0.0.1:7377"@,
        default_config().daemon.auto_translate,
        default_config().daemon.max_text_bytes == 5120,
        default_config().daemon.dedup_window_ms == 10000,
        !default_config().daemon.copy_translation,
        default_config().daemon.notify_timeout_ms == 5000,
        !default_config().daemon.show_word_badge,
        !default_config().daemon.popup,
{
}

proof fn lemma_first_bad_provider(ps: Seq<ProviderModel>, i: int, k: int)
    requires
        0 <= i <= k < ps.len(),
        provider_problem(ps, k) is Some,
        forall|j: int| i <= j < k ==> provider_problem(ps, j) is None,
    ensures
        providers_problem(ps, i) == provider_problem(ps, k),
    decreases k - i,
{
    if i < k {
        assert(provider_problem(ps, i) is None);
        lemma_first_bad_provider(ps, i + 1, k);
    }
}

/// Each rule that a configuration breaks is reported by the field that breaks
/// it, the earlier rule first: an engine that is not `llm`, `youdao` or `bing`;
/// a provider without an `id`, with one that an earlier provider has, without an
/// address or without a model; an engine `llm` without a provider of the name
/// given; an address that is none or is no loopback address; and a limit of zero.
pub proof fn law_broken_rules(c: ConfigModel, k: int)
    ensures
        c.default_engine != "llm"@ && c.default_engine != "youdao"@ && c.default_engine != "bing"@
            ==> problem(c) is Some && problem(c)->0.field == "default_engine"@,
        engine_problem(c.default_engine) is None && 0 <= k < c.llm.providers.len() && (forall|j: int|
            0 <= j < k ==> provider_problem(c.llm.providers, j) is None) ==> {
            let p = c.llm.providers[k];
            let at = |name: Seq<char>| "llm.providers["@ + text::decimal(k as nat) + "]."@ + name;
            let bad = |name: Seq<char>| problem(c) is Some && problem(c)->0.field == at(name);
            &&& p.id.len() == 0 ==> bad("id"@)
            &&& (exists|j: int| 0 <= j < k && (#[trigger] c.llm.providers[j]).id == p.id) ==> bad(
                "id"@,
            )
            &&& p.id.len() > 0 && !repeats(c.llm.providers, k) && p.base_url.len() == 0 ==> bad(
                "base_url"@,
            )
            &&& p.id.len() > 0 && !repeats(c.llm.providers, k) && p.base_url.len() > 0
                && p.model.len() == 0 ==> bad("model"@)
        },
        c.default_engine == "llm"@ && providers_problem(c.llm.providers, 0) is None && (forall|i: int|
            0 <= i < c.llm.providers.len() ==> (#[trigger] c.llm.providers[i]).id
                != c.llm.default_provider) ==> problem(c) is Some && problem(c)->0.field
            == "llm.default_provider"@,
        engine_problem(c.default_engine) is None && providers_problem(c.llm.providers, 0) is None
            && (c.default_engine == "llm"@ ==> default_provider_problem(c.llm) is None) ==> {
            let bad = |name: Seq<char>| problem(c) is Some && problem(c)->0.field == name;
            let a = addr::socket(c.daemon.http_bind);
            &&& a is None ==> bad("daemon.http_bind"@)
            &&& a is Some && !addr::loopback(a->0.ip) ==> bad("daemon.http_bind"@)
            &&& a is Some && addr::loopback(a->0.ip) && c.daemon.max_text_bytes == 0 ==> bad(
                "daemon.max_text_bytes"@,
            )
            &&& a is Some && addr::loopback(a->0.ip) && c.daemon.max_text_bytes > 0
                && c.daemon.dedup_window_ms == 0 ==> bad("daemon.dedup_window_ms"@)
            &&& a is Some && addr::loopback(a->0.ip) && c.daemon.max_text_bytes > 0
                && c.daemon.dedup_window_ms > 0 ==> problem(c) is None
        },
{
    if 0 <= k < c.llm.providers.len() && (forall|j: int|
        0 <= j < k ==> provider_problem(c.llm.providers, j) is None) && provider_problem(
        c.llm.providers,
        k,
    ) is Some {
        lemma_first_bad_provider(c.llm.providers, 0, k);
    }
    if c.default_engine == "llm"@ && (forall|i: int|
        0 <= i < c.llm.providers.len() ==> (#[trigger] c.llm.providers[i]).id
            != c.llm.default_provider) {
        assert(!has_provider(c.llm.providers, c.llm.default_provider));
    }
}

/// What is set and not empty overrides what is configured; the configuration
/// file is `pardon/config.toml` below the configuration directory.
pub proof fn law_places(v: Option<Seq<char>>, configured: Seq<char>, dir: Seq<char>)
    ensures
        v is Some && v->0.len() > 0 ==> overridden(v, configured) == v->0,
        v is None || v->0.len() == 0 ==> overridden(v, configured) == configured,
        dir.len() > 0 && dir.last() != '/' ==> default_path(Some(dir)) == dir
            + "/pardon/config.toml"@,
        default_path(None) == "./pardon/config.toml"@,
{
    reveal_strlit("/pardon/config.toml");
    reveal_strlit("./pardon/config.toml");
    reveal_strlit("pardon");
    reveal_strlit("config.toml");
    reveal_strlit(".");
    let below = |base: Seq<char>| paths::below(base, "pardon"@);
    if dir.len() > 0 && dir.last() != '/' {
        assert(below(dir) =~= dir + seq!['/'] + "pardon"@);
        assert(below(dir).last() == "pardon"@.last());
        assert(paths::below(below(dir), "config.toml"@) =~= dir + "/pardon/config.toml"@);
    }
    let here = "."@;
    assert(below(here) =~= here + seq!['/'] + "pardon"@);
    assert(below(here).last() == "pardon"@.last());
    assert(paths::below(below(here), "config.toml"@) =~= "./pardon/config.toml"@);
}

/// What is wrong with a field is said in words; an unknown engine, an `id` that is
/// there twice and a provider that is missing are quoted.
pub proof fn law_reasons(ps: Seq<ProviderModel>, i: int, e: Seq<char>, llm: LlmModel)
    ensures
        e != "llm"@ && e != "youdao"@ && e != "bing"@ ==> engine_problem(e)->0.reason
            == "unknown engine "@ + in_quotes(e) + ", expected one of llm/youdao/bing"@,
        ps[i].id.len() == 0 ==> provider_problem(ps, i)->0.reason == "id must be non-empty"@,
        ps[i].id.len() > 0 && (exists|j: int| 0 <= j < i && (#[trigger] ps[j]).id == ps[i].id)
            ==> provider_problem(ps, i)->0.reason == "duplicate provider id "@ + in_quotes(
            ps[i].id,
        ),
        ps[i].id.len() > 0 && !repeats(ps, i) && ps[i].base_url.len() == 0 ==> provider_problem(
            ps,
            i,
        )->0.reason == "base_url must be non-empty"@,
        ps[i].id.len() > 0 && !repeats(ps, i) && ps[i].base_url.len() > 0 && ps[i].model.len() == 0
            ==> provider_problem(ps, i)->0.reason == "model must be non-empty"@,
        llm.default_provider.len() == 0 ==> default_provider_problem(llm)->0.reason
            == "must name a providers[].id when default_engine = \"llm\""@,
        llm.default_provider.len() > 0 && (forall|k: int|
            0 <= k < llm.providers.len() ==> (#[trigger] llm.providers[k]).id
                != llm.default_provider) ==> default_provider_problem(llm)->0.reason
            == "no provider with id "@ + in_quotes(llm.default_provider),
        addr::socket(e) is None ==> bind_problem(e)->0.reason
            == "not a valid socket address (invalid socket address syntax)"@,
        addr::socket(e) is Some && !addr::loopback(addr::socket(e)->0.ip) ==> bind_problem(e)->0.reason
            == "must be a loopback address (127.x.x.x / ::1)"@,
        addr::socket(e) is Some && addr::loopback(addr::socket(e)->0.ip) ==> bind_problem(e) is None,
{
    assert(has_provider(llm.providers, llm.default_provider) ==> exists|k: int|
        0 <= k < llm.providers.len() && (#[trigger] llm.providers[k]).id == llm.default_provider);
}

/// The address to listen on is the one of the environment where that is not
/// empty, else the configured one; it is a loopback address in either case.
pub proof fn law_listening(cfg: &AppConfig, env: &Option<String>, r: Result<BindAddr, ConfigError>)
    requires
        call_ensures(effective_http_bind, (cfg, env), r),
        r is Ok,
    ensures
        env is Some && env->0@.len() > 0 ==> addr::socket(env->0@) == Some(r->Ok_0.deep_view()),
        env is None || env->0@.len() == 0 ==> addr::socket(cfg.daemon.http_bind@) == Some(
            r->Ok_0.deep_view(),
        ),
        r->Ok_0.ip is V4 ==> r->Ok_0.ip->V4_0@[0] == 127,
        r->Ok_0.ip is V6 ==> r->Ok_0.ip->V6_0@ == seq![
            0u16,
            0u16,
            0u16,
            0u16,
            0u16,
            0u16,
            0u16,
            1u16,
        ],
{
    assert(env is Some ==> env.deep_view() == Some(env->0@));
    assert(env is None ==> env.deep_view() is None);
    let a = r->Ok_0;
    assert(a.deep_view().ip == a.ip@);
    if a.ip is V6 {
        let g = a.ip->V6_0@;
        assert(a.ip@ == addr::IpModel::V6(g));
        addr::law_socket_shape(overridden(env.deep_view(), cfg.daemon.http_bind@));
        addr::law_loopback(seq![0u16, 0u16, 0u16, 0u16], g);
    }
}

/// A restart is needed where the engine or the language models differ, and
/// nowhere else.
pub proof fn law_restarts(cfg: &AppConfig, other: &AppConfig, again: bool)
    requires
        call_ensures(restart_required, (cfg, other), again),
    ensures
        cfg.default_engine@ != other.default_engine@ ==> again,
        cfg.llm.default_provider@ != other.llm.default_provider@ ==> again,
        cfg.llm.providers.deep_view() != other.llm.providers.deep_view() ==> again,
        cfg.default_engine@ == other.default_engine@ && cfg.llm.default_provider@
            == other.llm.default_provider@ && cfg.llm.providers.deep_view()
            == other.llm.providers.deep_view() ==> !again,
{
    let a = cfg.llm.deep_view();
    let b = other.llm.deep_view();
    assert(a.default_provider == cfg.llm.default_provider@);
    assert(b.default_provider == other.llm.default_provider@);
    assert(a.providers == cfg.llm.providers.deep_view());
    assert(b.providers == other.llm.providers.deep_view());
}

/// An error says its kind, and a broken rule the field and the reason.
pub proof fn law_errors(field: String, reason: String, why: String)
    ensures
        error_text(ConfigError::Invalid { field, reason }) == "config invalid: "@ + field@ + ": "@
            + reason@,
        error_text(ConfigError::Io(why)) == "config io error: "@ + why@,
        error_text(ConfigError::Parse(why)) == "config parse error: "@ + why@,
{
}

/// The key of a provider is the one that it holds, whatever the environment says;
/// a provider that names none and no variable has none.
pub proof fn law_own_key<E, F: Fn(String) -> Result<String, E>>(
    p: &ProviderConfig,
    get_env: F,
    r: Option<String>,
)
    requires
        call_ensures(ProviderConfig::resolve_api_key::<E, F>, (p, get_env), r),
    ensures
        p.api_key is Some ==> r is Some && r->0@ == p.api_key->0@,
        p.api_key is None && p.api_key_env is None ==> r is None,
        p.api_key is None && p.api_key_env is Some && r is Some ==> exists|name: String|
            name@ == p.api_key_env->0@ && #[trigger] call_ensures(
                get_env,
                (name,),
                Ok::<String, E>(r->0),
            ),
{
    if p.api_key is None && p.api_key_env is Some && r is Some {
        let var = p.api_key_env->0;
        let (name, got) = choose|name: String, got: Result<String, E>|
            {
                &&& name@ == var@
                &&& #[trigger] call_ensures(get_env, (name,), got)
                &&& r == (match got {
                    Ok(key) => Some(key),
                    Err(_) => None,
                })
            };
        assert(got == Ok::<String, E>(r->0));
    }
}

} // verus!
