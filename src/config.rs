//! The configuration document, its resolved form, and the errors of resolution.

use crate::resolver::{resolved, resolved_or_else, ConfigResolver, ResolverView};
use crate::machine_id::{
    assigned_ids, duplicate_message, empties, explicit_ids, final_ids, first_duplicate, first_free,
    generated_id, is_first_free, lemma_empties_monotonic, lemma_first_free_unique,
    lemma_final_ids_distinct, lemma_generated_id_injective, MachineIdGenerator,
};
use crate::text::{
    concat3, has_prefix, lemma_seq_lt_asymmetric, lemma_seq_lt_total, lemma_seq_lt_transitive, seq_lt,
    str_eq, str_lt, string_from, views,
};
use vstd::prelude::*;

verus! {

/// How much is logged.
#[derive(Clone, Copy, Debug, PartialEq, Eq, PartialOrd, Ord, Structural)]
pub enum LogLevel {
    Trace,
    Debug,
    Info,
    Warn,
    Error,
    Off,
}

impl Default for LogLevel {
    fn default() -> (r: Self)
        ensures
            r == LogLevel::Info,
    {
        LogLevel::Info
    }
}

/// The name of a level, as the logging crate spells it.
pub open spec fn level_name(l: LogLevel) -> Seq<char> {
    match l {
        LogLevel::Trace => "Trace"@,
        LogLevel::Debug => "Debug"@,
        LogLevel::Info => "Info"@,
        LogLevel::Warn => "Warn"@,
        LogLevel::Error => "Error"@,
        LogLevel::Off => "Off"@,
    }
}

/// The external logging crate's level filter: a plain enum of six levels.
#[verifier::external_type_specification]
pub struct ExLevelFilter(log::LevelFilter);

/// The logging crate's filter of each level.
pub open spec fn level_filter(l: LogLevel) -> log::LevelFilter {
    match l {
        LogLevel::Trace => log::LevelFilter::Trace,
        LogLevel::Debug => log::LevelFilter::Debug,
        LogLevel::Info => log::LevelFilter::Info,
        LogLevel::Warn => log::LevelFilter::Warn,
        LogLevel::Error => log::LevelFilter::Error,
        LogLevel::Off => log::LevelFilter::Off,
    }
}

/// Relies on `log::LevelFilter::from_str`, which gives the filter whose name
/// matches, ignoring letter case, and fails on any other text.
#[verifier::external_body]
fn level_filter_from_name(name: &str) -> (r: log::LevelFilter)
    requires
        name@ == "Trace"@ || name@ == "Debug"@ || name@ == "Info"@ || name@ == "Warn"@
            || name@ == "Error"@ || name@ == "Off"@,
    ensures
        name@ == "Trace"@ ==> r == log::LevelFilter::Trace,
        name@ == "Debug"@ ==> r == log::LevelFilter::Debug,
        name@ == "Info"@ ==> r == log::LevelFilter::Info,
        name@ == "Warn"@ ==> r == log::LevelFilter::Warn,
        name@ == "Error"@ ==> r == log::LevelFilter::Error,
        name@ == "Off"@ ==> r == log::LevelFilter::Off,
{
    <log::LevelFilter as std::str::FromStr>::from_str(name).unwrap()
}

impl LogLevel {
    /// The level's name.
    pub fn name(self) -> (r: &'static str)
        ensures
            r@ == level_name(self),
    {
        match self {
            LogLevel::Trace => "Trace",
            LogLevel::Debug => "Debug",
            LogLevel::Info => "Info",
            LogLevel::Warn => "Warn",
            LogLevel::Error => "Error",
            LogLevel::Off => "Off",
        }
    }

    /// The logging crate's filter of the same name.
    pub fn to_level_filter(self) -> (r: log::LevelFilter)
        ensures
            r == level_filter(self),
    {
        level_filter_from_name(self.name())
    }
}

/// Why an environment variable could not be read.
#[derive(Clone, Copy, Debug, PartialEq, Eq, Structural)]
pub enum VarError {
    NotPresent,
    NotUnicode,
}

/// Why a file could not be read.
#[derive(Clone, Copy, Debug, PartialEq, Eq, Structural)]
pub enum FileError {
    NotFound,
    PermissionDenied,
    Other,
}

/// The external YAML parser's error, carried as it is.
#[verifier::external_type_specification]
#[verifier::external_body]
pub struct ExYamlError(serde_yaml_ng::Error);

/// What went wrong while loading a configuration.
#[derive(Debug)]
#[allow(inconsistent_fields)]
pub enum ConfigError {
    ReadFailure { path: String, cause: FileError },
    ParseFailure { path: String, cause: serde_yaml_ng::Error },
    UnresolvedEnvironmentVariable { name: String, cause: VarError },
    UnresolvedFileVariable { path: String, cause: FileError },
    ValidationFailure { message: String },
}

/// A `ConfigError` with its strings as character sequences; a parse error's
/// cause is left out.
#[allow(inconsistent_fields)]
pub enum ErrorView {
    Read { path: Seq<char>, cause: FileError },
    Parse { path: Seq<char> },
    Env { name: Seq<char>, cause: VarError },
    File { path: Seq<char>, cause: FileError },
    Validation { message: Seq<char> },
}

impl View for ConfigError {
    type V = ErrorView;

    open spec fn view(&self) -> ErrorView {
        match self {
            ConfigError::ReadFailure { path, cause } => ErrorView::Read { path: path@, cause: *cause },
            ConfigError::ParseFailure { path, .. } => ErrorView::Parse { path: path@ },
            ConfigError::UnresolvedEnvironmentVariable { name, cause } => ErrorView::Env {
                name: name@,
                cause: *cause,
            },
            ConfigError::UnresolvedFileVariable { path, cause } => ErrorView::File {
                path: path@,
                cause: *cause,
            },
            ConfigError::ValidationFailure { message } => ErrorView::Validation { message: message@ },
        }
    }
}

/// The view of a result whose error is a `ConfigError`.
pub open spec fn result_view<T: View>(r: Result<T, ConfigError>) -> Result<T::V, ErrorView> {
    match r {
        Ok(v) => Ok(v@),
        Err(e) => Err(e@),
    }
}

/// A validation failure with the given message.
pub open spec fn invalid<T>(message: Seq<char>) -> Result<T, ErrorView> {
    Err(ErrorView::Validation { message })
}

/// Builds a validation failure.
pub fn validation_failure(message: String) -> (e: ConfigError)
    ensures
        e@ == (ErrorView::Validation { message: message@ }),
{
    ConfigError::ValidationFailure { message }
}

/// Where the runners register and how they are named.
#[derive(Debug, PartialEq, Eq)]
pub struct GithubRunnerConfig {
    pub name_prefix: String,
    pub scope: String,
    pub repo_url: String,
}

/// The GitHub side of the configuration.
#[derive(PartialEq, Eq)]
pub struct GithubConfig {
    pub personal_access_token: String,
    pub runners: GithubRunnerConfig,
}

/// How to reach a machine over SSH.
#[derive(PartialEq, Eq)]
pub struct SshConfig {
    pub host: String,
    pub port: u16,
    pub fingerprint: String,
    pub username: String,
    pub password: String,
    pub private_key: String,
    pub private_key_passphrase: String,
}

/// How many runners a machine may host at once.
#[derive(Clone, Copy, Debug, PartialEq, Eq, Structural)]
pub struct RunnersConfig {
    pub max: u32,
}

/// Settings that machines inherit where they leave a field unset.
#[derive(PartialEq, Eq)]
pub struct MachineDefaultsConfig {
    pub ssh: SshConfig,
    pub runners: RunnersConfig,
}

/// One machine that hosts runners.
#[derive(PartialEq, Eq)]
pub struct MachineConfig {
    pub id: String,
    pub ssh: SshConfig,
    pub runners: RunnersConfig,
}

/// A whole configuration, as written or as resolved.
#[derive(PartialEq, Eq)]
pub struct Config {
    pub log_level: LogLevel,
    pub github: GithubConfig,
    pub machine_defaults: MachineDefaultsConfig,
    pub machines: Vec<MachineConfig>,
}

/// A `GithubRunnerConfig` with its strings as character sequences.
pub struct GithubRunnerView {
    pub name_prefix: Seq<char>,
    pub scope: Seq<char>,
    pub repo_url: Seq<char>,
}

/// A `GithubConfig` with its strings as character sequences.
pub struct GithubView {
    pub personal_access_token: Seq<char>,
    pub runners: GithubRunnerView,
}

/// An `SshConfig` with its strings as character sequences.
pub struct SshView {
    pub host: Seq<char>,
    pub port: u16,
    pub fingerprint: Seq<char>,
    pub username: Seq<char>,
    pub password: Seq<char>,
    pub private_key: Seq<char>,
    pub private_key_passphrase: Seq<char>,
}

/// A `MachineDefaultsConfig` with its strings as character sequences.
pub struct MachineDefaultsView {
    pub ssh: SshView,
    pub runners: RunnersConfig,
}

/// A `MachineConfig` with its strings as character sequences.
pub struct MachineView {
    pub id: Seq<char>,
    pub ssh: SshView,
    pub runners: RunnersConfig,
}

/// A `Config` with its strings as character sequences.
pub struct ConfigView {
    pub log_level: LogLevel,
    pub github: GithubView,
    pub machine_defaults: MachineDefaultsView,
    pub machines: Seq<MachineView>,
}

impl View for GithubRunnerConfig {
    type V = GithubRunnerView;

    open spec fn view(&self) -> GithubRunnerView {
        GithubRunnerView {
            name_prefix: self.name_prefix@,
            scope: self.scope@,
            repo_url: self.repo_url@,
        }
    }
}

impl View for GithubConfig {
    type V = GithubView;

    open spec fn view(&self) -> GithubView {
        GithubView { personal_access_token: self.personal_access_token@, runners: self.runners@ }
    }
}

impl View for SshConfig {
    type V = SshView;

    open spec fn view(&self) -> SshView {
        SshView {
            host: self.host@,
            port: self.port,
            fingerprint: self.fingerprint@,
            username: self.username@,
            password: self.password@,
            private_key: self.private_key@,
            private_key_passphrase: self.private_key_passphrase@,
        }
    }
}

impl View for MachineDefaultsConfig {
    type V = MachineDefaultsView;

    open spec fn view(&self) -> MachineDefaultsView {
        MachineDefaultsView { ssh: self.ssh@, runners: self.runners }
    }
}

impl View for MachineConfig {
    type V = MachineView;

    open spec fn view(&self) -> MachineView {
        MachineView { id: self.id@, ssh: self.ssh@, runners: self.runners }
    }
}

impl View for Config {
    type V = ConfigView;

    open spec fn view(&self) -> ConfigView {
        ConfigView {
            log_level: self.log_level,
            github: self.github@,
            machine_defaults: self.machine_defaults@,
            machines: self.machines@.map_values(|m: MachineConfig| m@),
        }
    }
}

impl Clone for GithubRunnerConfig {
    fn clone(&self) -> (r: Self)
        ensures
            r == *self,
    {
        GithubRunnerConfig {
            name_prefix: self.name_prefix.clone(),
            scope: self.scope.clone(),
            repo_url: self.repo_url.clone(),
        }
    }
}

impl Clone for GithubConfig {
    fn clone(&self) -> (r: Self)
        ensures
            r == *self,
    {
        GithubConfig {
            personal_access_token: self.personal_access_token.clone(),
            runners: self.runners.clone(),
        }
    }
}

impl Clone for SshConfig {
    fn clone(&self) -> (r: Self)
        ensures
            r == *self,
    {
        SshConfig {
            host: self.host.clone(),
            port: self.port,
            fingerprint: self.fingerprint.clone(),
            username: self.username.clone(),
            password: self.password.clone(),
            private_key: self.private_key.clone(),
            private_key_passphrase: self.private_key_passphrase.clone(),
        }
    }
}

impl Clone for MachineConfig {
    fn clone(&self) -> (r: Self)
        ensures
            r == *self,
    {
        MachineConfig { id: self.id.clone(), ssh: self.ssh.clone(), runners: self.runners }
    }
}

impl Default for SshConfig {
    fn default() -> (r: Self)
        ensures
            r@ == (SshView {
                host: Seq::empty(),
                port: 0,
                fingerprint: Seq::empty(),
                username: Seq::empty(),
                password: Seq::empty(),
                private_key: Seq::empty(),
                private_key_passphrase: Seq::empty(),
            }),
    {
        let r = SshConfig {
            host: String::new(),
            port: 0,
            fingerprint: String::new(),
            username: String::new(),
            password: String::new(),
            private_key: String::new(),
            private_key_passphrase: String::new(),
        };
        assert(r@ =~= (SshView {
            host: Seq::empty(),
            port: 0,
            fingerprint: Seq::empty(),
            username: Seq::empty(),
            password: Seq::empty(),
            private_key: Seq::empty(),
            private_key_passphrase: Seq::empty(),
        }));
        r
    }
}

impl Default for RunnersConfig {
    fn default() -> (r: Self)
        ensures
            r.max == 0,
    {
        RunnersConfig { max: 0 }
    }
}

impl Default for MachineDefaultsConfig {
    fn default() -> (r: Self)
        ensures
            r.ssh@ == SshConfig::default_view(),
            r.runners.max == 0,
    {
        MachineDefaultsConfig { ssh: SshConfig::default(), runners: RunnersConfig::default() }
    }
}

impl SshConfig {
    /// The view of an SSH block with every field unset.
    pub open spec fn default_view() -> SshView {
        SshView {
            host: Seq::empty(),
            port: 0,
            fingerprint: Seq::empty(),
            username: Seq::empty(),
            password: Seq::empty(),
            private_key: Seq::empty(),
            private_key_passphrase: Seq::empty(),
        }
    }
}

/// The name prefix that runners get where none is given.
pub fn default_github_runner_name_prefix() -> (r: String)
    ensures
        r@ == "runner"@,
{
    string_from("runner")
}

/// The runner scope where none is given.
pub fn default_github_runner_scope() -> (r: String)
    ensures
        r@ == "repo"@,
{
    string_from("repo")
}

/// What a secret shows as in a rendering: nothing where it is unset, a fixed
/// marker otherwise.
pub open spec fn masked(value: Seq<char>) -> Seq<char> {
    if value.len() == 0 {
        ""@
    } else {
        "[REDACTED]"@
    }
}

/// Hides a secret: never any part of its value.
pub fn mask_credential(value: &str) -> (r: &'static str)
    ensures
        r@ == masked(value@),
{
    if value.is_empty() {
        ""
    } else {
        "[REDACTED]"
    }
}

/// The checks on a resolved GitHub block, in order: the first that fails
/// gives the error.
pub open spec fn github_checked(g: GithubView) -> Result<GithubView, ErrorView> {
    let t = g.personal_access_token;
    let u = g.runners.repo_url;
    if t.len() == 0 {
        invalid(
            "An empty or missing value in 'github.personal_access_token'. A GitHub personal access token must start with 'ghp_'."@,
        )
    } else if !"ghp_"@.is_prefix_of(t) {
        invalid(
            "An invalid value in 'github.personal_access_token'. A GitHub personal access token must start with 'ghp_'."@,
        )
    } else if g.runners.name_prefix.len() == 0 {
        invalid("An empty value in 'github.runners.name_prefix'."@)
    } else if g.runners.scope != "repo"@ {
        invalid(
            "An unsupported value '"@ + g.runners.scope
                + "' in 'github.runners.scope'. 'repo' is the only supported value at the moment."@,
        )
    } else if u.len() == 0 {
        invalid("An empty or missing URL in 'github.runners.repo_url'."@)
    } else if !("http://"@.is_prefix_of(u) || "https://"@.is_prefix_of(u)) {
        invalid("An invalid URL '"@ + u + "' in github.runners.repo_url."@)
    } else {
        Ok(g)
    }
}

/// The GitHub block resolved field by field (token, name prefix, scope,
/// repository URL), then checked.
pub open spec fn github_resolved(r: ResolverView, c: GithubView) -> Result<GithubView, ErrorView> {
    match resolved(r, c.personal_access_token) {
        Err(e) => Err(e),
        Ok(token) => match resolved(r, c.runners.name_prefix) {
            Err(e) => Err(e),
            Ok(name_prefix) => match resolved(r, c.runners.scope) {
                Err(e) => Err(e),
                Ok(scope) => match resolved(r, c.runners.repo_url) {
                    Err(e) => Err(e),
                    Ok(repo_url) => github_checked(
                        GithubView {
                            personal_access_token: token,
                            runners: GithubRunnerView { name_prefix, scope, repo_url },
                        },
                    ),
                },
            },
        },
    }
}

/// The password, private key and passphrase that a machine uses, in this
/// order of preference: its own private key, its own password, the default
/// private key, the default password. The two fields not chosen are empty.
pub open spec fn auth_choice(d: SshView, c: SshView) -> (Seq<char>, Seq<char>, Seq<char>) {
    if c.private_key.len() > 0 {
        (Seq::empty(), c.private_key, c.private_key_passphrase)
    } else if c.password.len() > 0 {
        (c.password, Seq::empty(), Seq::empty())
    } else if d.private_key.len() > 0 {
        (Seq::empty(), d.private_key, d.private_key_passphrase)
    } else {
        (d.password, Seq::empty(), Seq::empty())
    }
}

/// The default host, or the error of a machine that has none.
pub open spec fn host_fallback(id: Seq<char>, d: SshView) -> Result<Seq<char>, ErrorView> {
    if d.host.len() == 0 {
        invalid("'host' must be specified for machine '"@ + id + "'."@)
    } else {
        Ok(d.host)
    }
}

/// The default user name, or the error of a machine that has none.
pub open spec fn username_fallback(id: Seq<char>, d: SshView) -> Result<Seq<char>, ErrorView> {
    if d.username.len() == 0 {
        invalid("'username' must be specified for machine '"@ + id + "'."@)
    } else {
        Ok(d.username)
    }
}

/// The machine's port if set, else the default's if set, else 22.
pub open spec fn merged_port(d: SshView, c: SshView) -> u16 {
    if c.port != 0 {
        c.port
    } else if d.port != 0 {
        d.port
    } else {
        22
    }
}

/// A machine's SSH block merged with the defaults and resolved: host,
/// fingerprint (never inherited), user name, then the chosen credentials.
/// A machine whose host or user name is empty once resolved, or that is left
/// with neither password nor private key, is refused.
pub open spec fn ssh_resolved(r: ResolverView, id: Seq<char>, d: SshView, c: SshView) -> Result<
    SshView,
    ErrorView,
> {
    let (pw, pk, pp) = auth_choice(d, c);
    match resolved_or_else(r, c.host, host_fallback(id, d)) {
        Err(e) => Err(e),
        Ok(host) => if host.len() == 0 {
            invalid("'host' must be specified for machine '"@ + id + "'."@)
        } else {
            match resolved(r, c.fingerprint) {
            Err(e) => Err(e),
            Ok(fingerprint) => match resolved_or_else(r, c.username, username_fallback(id, d)) {
                Err(e) => Err(e),
                Ok(username) => if username.len() == 0 {
                    invalid("'username' must be specified for machine '"@ + id + "'."@)
                } else {
                    match resolved(r, pw) {
                    Err(e) => Err(e),
                    Ok(password) => match resolved(r, pk) {
                        Err(e) => Err(e),
                        Ok(private_key) => match resolved(r, pp) {
                            Err(e) => Err(e),
                            Ok(private_key_passphrase) => if password.len() == 0
                                && private_key.len() == 0 {
                                invalid(
                                    "'password' or 'private_key' must be specified for machine '"@
                                        + id + "'."@,
                                )
                            } else {
                                Ok(
                                    SshView {
                                        host,
                                        port: merged_port(d, c),
                                        fingerprint,
                                        username,
                                        password,
                                        private_key,
                                        private_key_passphrase,
                                    },
                                )
                            },
                        },
                    },
                }
                },
            }
            }
        },
    }
}

/// The default SSH block resolved field by field (host, user name, password,
/// private key, passphrase); its fingerprint is dropped.
pub open spec fn default_ssh_resolved(r: ResolverView, c: SshView) -> Result<SshView, ErrorView> {
    match resolved(r, c.host) {
        Err(e) => Err(e),
        Ok(host) => match resolved(r, c.username) {
            Err(e) => Err(e),
            Ok(username) => match resolved(r, c.password) {
                Err(e) => Err(e),
                Ok(password) => match resolved(r, c.private_key) {
                    Err(e) => Err(e),
                    Ok(private_key) => match resolved(r, c.private_key_passphrase) {
                        Err(e) => Err(e),
                        Ok(private_key_passphrase) => Ok(
                            SshView {
                                host,
                                port: c.port,
                                fingerprint: Seq::empty(),
                                username,
                                password,
                                private_key,
                                private_key_passphrase,
                            },
                        ),
                    },
                },
            },
        },
    }
}

/// The machine's bound if set, else the default's if set, else 16.
pub open spec fn merged_max(d: RunnersConfig, c: RunnersConfig) -> u32 {
    if c.max != 0 {
        c.max
    } else if d.max != 0 {
        d.max
    } else {
        16
    }
}

impl Config {
    /// Resolves and checks the GitHub block.
    pub fn resolve_github_config(c: &GithubConfig, r: &ConfigResolver) -> (res: Result<
        GithubConfig,
        ConfigError,
    >)
        ensures
            result_view(res) == github_resolved(r@, c@),
    {
        let token = match r.resolve(c.personal_access_token.as_str()) {
            Ok(v) => v,
            Err(e) => {
                return Err(e);
            },
        };
        let name_prefix = match r.resolve(c.runners.name_prefix.as_str()) {
            Ok(v) => v,
            Err(e) => {
                return Err(e);
            },
        };
        let scope = match r.resolve(c.runners.scope.as_str()) {
            Ok(v) => v,
            Err(e) => {
                return Err(e);
            },
        };
        let repo_url = match r.resolve(c.runners.repo_url.as_str()) {
            Ok(v) => v,
            Err(e) => {
                return Err(e);
            },
        };
        let config = GithubConfig {
            personal_access_token: token,
            runners: GithubRunnerConfig { name_prefix, scope, repo_url },
        };

        // The personal access token.
        if config.personal_access_token.as_str().is_empty() {
            return Err(
                validation_failure(
                    string_from(
                        "An empty or missing value in 'github.personal_access_token'. A GitHub personal access token must start with 'ghp_'.",
                    ),
                ),
            );
        }
        if !has_prefix(config.personal_access_token.as_str(), "ghp_") {
            return Err(
                validation_failure(
                    string_from(
                        "An invalid value in 'github.personal_access_token'. A GitHub personal access token must start with 'ghp_'.",
                    ),
                ),
            );
        }
        // The runners.
        if config.runners.name_prefix.as_str().is_empty() {
            return Err(
                validation_failure(string_from("An empty value in 'github.runners.name_prefix'.")),
            );
        }
        if !str_eq(config.runners.scope.as_str(), "repo") {
            return Err(
                validation_failure(
                    concat3(
                        "An unsupported value '",
                        config.runners.scope.as_str(),
                        "' in 'github.runners.scope'. 'repo' is the only supported value at the moment.",
                    ),
                ),
            );
        }
        let repo_url = config.runners.repo_url.as_str();
        if repo_url.is_empty() {
            return Err(
                validation_failure(
                    string_from("An empty or missing URL in 'github.runners.repo_url'."),
                ),
            );
        }
        if !has_prefix(repo_url, "http://") && !has_prefix(repo_url, "https://") {
            return Err(
                validation_failure(
                    concat3("An invalid URL '", repo_url, "' in github.runners.repo_url."),
                ),
            );
        }
        Ok(config)
    }

    /// Resolves the defaults that machines inherit.
    pub fn resolve_machine_defaults_config(c: &MachineDefaultsConfig, r: &ConfigResolver) -> (res:
        Result<MachineDefaultsConfig, ConfigError>)
        ensures
            result_view(res) == match default_ssh_resolved(r@, c.ssh@) {
                Ok(ssh) => Ok(MachineDefaultsView { ssh, runners: c.runners }),
                Err(e) => Err(e),
            },
    {
        match Self::resolve_default_ssh_config(&c.ssh, r) {
            Ok(ssh) => Ok(MachineDefaultsConfig { ssh, runners: RunnersConfig { max: c.runners.max } }),
            Err(e) => Err(e),
        }
    }

    /// Resolves the default SSH block; a fingerprint there is dropped, since
    /// every host has a key of its own.
    pub fn resolve_default_ssh_config(c: &SshConfig, r: &ConfigResolver) -> (res: Result<
        SshConfig,
        ConfigError,
    >)
        ensures
            result_view(res) == default_ssh_resolved(r@, c@),
    {
        let host = match r.resolve(c.host.as_str()) {
            Ok(v) => v,
            Err(e) => {
                return Err(e);
            },
        };
        let username = match r.resolve(c.username.as_str()) {
            Ok(v) => v,
            Err(e) => {
                return Err(e);
            },
        };
        let password = match r.resolve(c.password.as_str()) {
            Ok(v) => v,
            Err(e) => {
                return Err(e);
            },
        };
        let private_key = match r.resolve(c.private_key.as_str()) {
            Ok(v) => v,
            Err(e) => {
                return Err(e);
            },
        };
        let private_key_passphrase = match r.resolve(c.private_key_passphrase.as_str()) {
            Ok(v) => v,
            Err(e) => {
                return Err(e);
            },
        };
        let res = SshConfig {
            host,
            port: c.port,
            fingerprint: String::new(),
            username,
            password,
            private_key,
            private_key_passphrase,
        };
        proof {
            assert(res.fingerprint@ =~= Seq::<char>::empty());
        }
        Ok(res)
    }

    /// Merges a machine's SSH block with the defaults and resolves it.
    pub fn resolve_ssh_config(
        machine_id: &str,
        defaults: &SshConfig,
        c: &SshConfig,
        r: &ConfigResolver,
    ) -> (res: Result<SshConfig, ConfigError>)
        ensures
            result_view(res) == ssh_resolved(r@, machine_id@, defaults@, c@),
    {
        // Credentials in this order of preference:
        // a per-machine private key, a per-machine password,
        // the default private key, the default password.
        let (pw, pk, pp): (&str, &str, &str) = if !c.private_key.as_str().is_empty() {
            ("", c.private_key.as_str(), c.private_key_passphrase.as_str())
        } else if !c.password.as_str().is_empty() {
            (c.password.as_str(), "", "")
        } else if !defaults.private_key.as_str().is_empty() {
            ("", defaults.private_key.as_str(), defaults.private_key_passphrase.as_str())
        } else {
            (defaults.password.as_str(), "", "")
        };
        proof {
            reveal_strlit("");
            let (a, b, x) = auth_choice(defaults@, c@);
            assert(pw@ =~= a && pk@ =~= b && pp@ =~= x);
        }

        let host_fallback = if defaults.host.as_str().is_empty() {
            Err(validation_failure(concat3("'host' must be specified for machine '", machine_id, "'.")))
        } else {
            Ok(defaults.host.clone())
        };
        let host = match r.resolve_or_else(c.host.as_str(), host_fallback) {
            Ok(v) => v,
            Err(e) => {
                return Err(e);
            },
        };
        if host.as_str().is_empty() {
            return Err(
                validation_failure(concat3("'host' must be specified for machine '", machine_id, "'.")),
            );
        }
        let port = if c.port != 0 {
            c.port
        } else if defaults.port != 0 {
            defaults.port
        } else {
            22
        };
        // Never inherited: every machine has a host key of its own.
        let fingerprint = match r.resolve(c.fingerprint.as_str()) {
            Ok(v) => v,
            Err(e) => {
                return Err(e);
            },
        };
        let username_fallback = if defaults.username.as_str().is_empty() {
            Err(
                validation_failure(
                    concat3("'username' must be specified for machine '", machine_id, "'."),
                ),
            )
        } else {
            Ok(defaults.username.clone())
        };
        let username = match r.resolve_or_else(c.username.as_str(), username_fallback) {
            Ok(v) => v,
            Err(e) => {
                return Err(e);
            },
        };
        if username.as_str().is_empty() {
            return Err(
                validation_failure(
                    concat3("'username' must be specified for machine '", machine_id, "'."),
                ),
            );
        }
        let password = match r.resolve(pw) {
            Ok(v) => v,
            Err(e) => {
                return Err(e);
            },
        };
        let private_key = match r.resolve(pk) {
            Ok(v) => v,
            Err(e) => {
                return Err(e);
            },
        };
        let private_key_passphrase = match r.resolve(pp) {
            Ok(v) => v,
            Err(e) => {
                return Err(e);
            },
        };
        if password.as_str().is_empty() && private_key.as_str().is_empty() {
            return Err(
                validation_failure(
                    concat3(
                        "'password' or 'private_key' must be specified for machine '",
                        machine_id,
                        "'.",
                    ),
                ),
            );
        }
        Ok(
            SshConfig {
                host,
                port,
                fingerprint,
                username,
                password,
                private_key,
                private_key_passphrase,
            },
        )
    }

    /// Merges a machine's runner bound with the default.
    pub fn resolve_runners_config(defaults: &RunnersConfig, c: &RunnersConfig) -> (res: Result<
        RunnersConfig,
        ConfigError,
    >)
        ensures
            res matches Ok(v) && v.max == merged_max(*defaults, *c),
    {
        let default_max_runners: u32 = 16;
        Ok(
            RunnersConfig {
                max: if c.max != 0 {
                    c.max
                } else if defaults.max != 0 {
                    defaults.max
                } else {
                    default_max_runners
                },
            },
        )
    }
}

/// The views of a list of machines.
pub open spec fn machine_views(v: Seq<MachineConfig>) -> Seq<MachineView> {
    v.map_values(|m: MachineConfig| m@)
}

/// The view of a result that holds a list of machines.
pub open spec fn machines_result_view(r: Result<Vec<MachineConfig>, ConfigError>) -> Result<
    Seq<MachineView>,
    ErrorView,
> {
    match r {
        Ok(v) => Ok(machine_views(v@)),
        Err(e) => Err(e@),
    }
}

/// Inserts `x` after every machine whose identifier does not come after its own.
pub open spec fn insert_by_id(x: MachineView, s: Seq<MachineView>) -> Seq<MachineView>
    decreases s.len(),
{
    if s.len() == 0 {
        seq![x]
    } else if seq_lt(x.id, s[0].id) {
        seq![x] + s
    } else {
        seq![s[0]] + insert_by_id(x, s.drop_first())
    }
}

/// The machines in lexicographic order of identifier; machines with equal
/// identifiers keep their order.
pub open spec fn sorted_by_id(s: Seq<MachineView>) -> Seq<MachineView>
    decreases s.len(),
{
    if s.len() == 0 {
        s
    } else {
        insert_by_id(s.last(), sorted_by_id(s.drop_last()))
    }
}

/// No machine's identifier comes before that of a machine ahead of it.
pub open spec fn ids_ascending(s: Seq<MachineView>) -> bool {
    forall|i: int, j: int| 0 <= i < j < s.len() ==> !seq_lt(s[j].id, s[i].id)
}

proof fn lemma_insert_by_id_position(x: MachineView, s: Seq<MachineView>)
    ensures
        exists|p: int| 0 <= p <= s.len() && insert_by_id(x, s) == s.insert(p, x),
    decreases s.len(),
{
    if s.len() == 0 {
        assert(insert_by_id(x, s) =~= s.insert(0, x));
    } else if seq_lt(x.id, s[0].id) {
        assert(insert_by_id(x, s) =~= s.insert(0, x));
    } else {
        let t = s.drop_first();
        lemma_insert_by_id_position(x, t);
        let p = choose|p: int| 0 <= p <= t.len() && insert_by_id(x, t) == t.insert(p, x);
        assert(insert_by_id(x, s) =~= s.insert(p + 1, x));
    }
}

proof fn lemma_insert_by_id_ascending(x: MachineView, s: Seq<MachineView>)
    requires
        ids_ascending(s),
    ensures
        ids_ascending(insert_by_id(x, s)),
    decreases s.len(),
{
    let r = insert_by_id(x, s);
    if s.len() == 0 {
    } else if seq_lt(x.id, s[0].id) {
        assert forall|i: int, j: int| 0 <= i < j < r.len() implies !seq_lt(r[j].id, r[i].id) by {
            if i == 0 {
                assert(r[j] == s[j - 1]);
                if seq_lt(s[j - 1].id, x.id) {
                    if j - 1 > 0 {
                        assert(!seq_lt(s[j - 1].id, s[0].id));
                        lemma_seq_lt_transitive(s[j - 1].id, x.id, s[0].id);
                    } else {
                        lemma_seq_lt_asymmetric(x.id, s[0].id);
                    }
                }
            } else {
                assert(r[i] == s[i - 1] && r[j] == s[j - 1]);
            }
        }
    } else {
        let t = s.drop_first();
        assert forall|i: int, j: int| 0 <= i < j < t.len() implies !seq_lt(t[j].id, t[i].id) by {
            assert(t[i] == s[i + 1] && t[j] == s[j + 1]);
        }
        lemma_insert_by_id_ascending(x, t);
        lemma_insert_by_id_position(x, t);
        let p = choose|p: int| 0 <= p <= t.len() && insert_by_id(x, t) == t.insert(p, x);
        let it = insert_by_id(x, t);
        assert(r == seq![s[0]] + it);
        assert forall|i: int, j: int| 0 <= i < j < r.len() implies !seq_lt(r[j].id, r[i].id) by {
            if i == 0 {
                let m = j - 1;
                assert(r[j] == it[m]);
                if m == p {
                    assert(it[m] == x);
                } else if m < p {
                    assert(it[m] == t[m] && t[m] == s[m + 1]);
                } else {
                    assert(it[m] == t[m - 1] && t[m - 1] == s[m]);
                }
            } else {
                assert(r[i] == it[i - 1] && r[j] == it[j - 1]);
            }
        }
    }
}

/// Sorting by identifier gives the same machines, each identifier no
/// earlier than the one before it.
pub proof fn lemma_sorted_by_id(s: Seq<MachineView>)
    ensures
        ids_ascending(sorted_by_id(s)),
        sorted_by_id(s).to_multiset() == s.to_multiset(),
    decreases s.len(),
{
    if s.len() > 0 {
        let p = s.drop_last();
        lemma_sorted_by_id(p);
        lemma_insert_by_id_ascending(s.last(), sorted_by_id(p));
        lemma_insert_by_id_position(s.last(), sorted_by_id(p));
        let k = choose|k: int|
            0 <= k <= sorted_by_id(p).len() && insert_by_id(s.last(), sorted_by_id(p))
                == sorted_by_id(p).insert(k, s.last());
        vstd::seq_lib::to_multiset_insert(sorted_by_id(p), k, s.last());
        assert(s =~= p.push(s.last()));
        vstd::seq_lib::to_multiset_build(p, s.last());
    } else {
        assert(sorted_by_id(s) == s);
    }
}

/// Each machine's identifier resolved, in order.
pub open spec fn ids_resolved(r: ResolverView, ms: Seq<MachineView>) -> Result<
    Seq<Seq<char>>,
    ErrorView,
>
    decreases ms.len(),
{
    if ms.len() == 0 {
        Ok(Seq::empty())
    } else {
        match ids_resolved(r, ms.drop_last()) {
            Err(e) => Err(e),
            Ok(ids) => match resolved(r, ms.last().id) {
                Err(e) => Err(e),
                Ok(id) => Ok(ids.push(id)),
            },
        }
    }
}

/// Each machine merged with the defaults under the identifier `ids` gives it,
/// in order.
pub open spec fn machines_merged(
    r: ResolverView,
    d: MachineDefaultsView,
    ms: Seq<MachineView>,
    ids: Seq<Seq<char>>,
) -> Result<Seq<MachineView>, ErrorView>
    decreases ms.len(),
{
    if ms.len() == 0 {
        Ok(Seq::empty())
    } else {
        match machines_merged(r, d, ms.drop_last(), ids) {
            Err(e) => Err(e),
            Ok(done) => {
                let i = ms.len() - 1;
                match ssh_resolved(r, ids[i], d.ssh, ms[i].ssh) {
                    Err(e) => Err(e),
                    Ok(ssh) => Ok(
                        done.push(
                            MachineView {
                                id: ids[i],
                                ssh,
                                runners: RunnersConfig { max: merged_max(d.runners, ms[i].runners) },
                            },
                        ),
                    ),
                }
            },
        }
    }
}

/// The machine list resolved: identifiers resolved and checked for
/// repeats, identifiers generated where missing, each machine merged with the
/// defaults, an empty list refused, the rest sorted by identifier.
pub open spec fn machines_resolved(r: ResolverView, d: MachineDefaultsView, ms: Seq<MachineView>) -> Result<
    Seq<MachineView>,
    ErrorView,
> {
    match ids_resolved(r, ms) {
        Err(e) => Err(e),
        Ok(ids) => match first_duplicate(ids) {
            Some(dup) => invalid(duplicate_message(dup)),
            None => match machines_merged(r, d, ms, final_ids(ids)) {
                Err(e) => Err(e),
                Ok(out) => if out.len() == 0 {
                    invalid("There must be at least one machine in the configuration."@)
                } else {
                    Ok(sorted_by_id(out))
                },
            },
        },
    }
}

/// `insert_by_id` places `x` before the first machine that comes after it.
proof fn lemma_insert_by_id_at(x: MachineView, s: Seq<MachineView>, p: int)
    requires
        0 <= p <= s.len(),
        forall|j: int| 0 <= j < p ==> !seq_lt(x.id, (#[trigger] s[j]).id),
        p == s.len() || seq_lt(x.id, s[p].id),
    ensures
        insert_by_id(x, s) == s.insert(p, x),
    decreases p,
{
    if p == 0 {
        if s.len() == 0 {
            assert(s.insert(p, x) =~= seq![x]);
        } else {
            assert(s.insert(p, x) =~= seq![x] + s);
        }
    } else {
        let t = s.drop_first();
        assert forall|j: int| 0 <= j < p - 1 implies !seq_lt(x.id, (#[trigger] t[j]).id) by {
            assert(t[j] == s[j + 1]);
        }
        assert(!seq_lt(x.id, s[0].id));
        lemma_insert_by_id_at(x, t, p - 1);
        assert(s.insert(p, x) =~= seq![s[0]] + t.insert(p - 1, x));
    }
}

/// Sorts machines by identifier, keeping the order of equal ones.
pub fn sort_by_id(v: &Vec<MachineConfig>) -> (r: Vec<MachineConfig>)
    ensures
        machine_views(r@) == sorted_by_id(machine_views(v@)),
{
    let mut out: Vec<MachineConfig> = Vec::new();
    let mut i: usize = 0;
    while i < v.len()
        invariant
            i <= v@.len(),
            machine_views(out@) == sorted_by_id(machine_views(v@.take(i as int))),
        decreases v@.len() - i,
    {
        let x = v[i].clone();
        let mut p: usize = 0;
        while p < out.len() && !str_lt(x.id.as_str(), out[p].id.as_str())
            invariant
                p <= out@.len(),
                forall|j: int| 0 <= j < p ==> !seq_lt(x.id@, (#[trigger] out@[j]).id@),
            decreases out@.len() - p,
        {
            p = p + 1;
        }
        proof {
            let s = machine_views(out@);
            assert forall|j: int| 0 <= j < p implies !seq_lt(x@.id, (#[trigger] s[j]).id) by {
                assert(s[j] == out@[j]@);
            }
            if p < out@.len() {
                assert(s[p as int] == out@[p as int]@);
            }
            lemma_insert_by_id_at(x@, s, p as int);
            let taken = machine_views(v@.take(i + 1));
            assert(taken.drop_last() =~= machine_views(v@.take(i as int)));
            assert(taken.last() == x@);
        }
        let ghost old_out = out@;
        out.insert(p, x);
        proof {
            assert(machine_views(out@) =~= machine_views(old_out).insert(p as int, x@));
        }
        i = i + 1;
    }
    assert(v@.take(v@.len() as int) =~= v@);
    out
}

impl Config {
    /// Resolves every machine: identifiers, SSH blocks and runner bounds, then
    /// sorts them by identifier.
    pub fn resolve_machine_configs(
        defaults: &MachineDefaultsConfig,
        cfgs: &Vec<MachineConfig>,
        r: &ConfigResolver,
    ) -> (res: Result<Vec<MachineConfig>, ConfigError>)
        ensures
            machines_result_view(res) == machines_resolved(r@, defaults@, machine_views(cfgs@)),
    {
        let ghost ms = machine_views(cfgs@);
        let n = cfgs.len();
        // Every identifier, resolved.
        let mut ids: Vec<String> = Vec::new();
        let mut i: usize = 0;
        proof {
            assert(ms.take(0) =~= Seq::<MachineView>::empty());
            assert(views(ids@) =~= Seq::<Seq<char>>::empty());
        }
        while i < n
            invariant
                n == cfgs@.len(),
                ms == machine_views(cfgs@),
                i <= n,
                ids@.len() == i,
                ids_resolved(r@, ms.take(i as int)) == Ok::<Seq<Seq<char>>, ErrorView>(
                    views(ids@),
                ),
            decreases n - i,
        {
            proof {
                assert(ms.take(i + 1).drop_last() =~= ms.take(i as int));
                assert(ms.take(i + 1).last() == cfgs@[i as int]@);
            }
            let id = match r.resolve(cfgs[i].id.as_str()) {
                Ok(v) => v,
                Err(e) => {
                    proof {
                        lemma_ids_resolved_prefix(r@, ms, i + 1);
                    }
                    return Err(e);
                },
            };
            let ghost before = ids@;
            ids.push(id);
            proof {
                assert(views(ids@) =~= views(before).push(ids@[i as int]@));
            }
            i = i + 1;
        }
        proof {
            assert(ms.take(n as int) =~= ms);
        }
        let ghost all = views(ids@);
        let mut generator = match MachineIdGenerator::new(&ids) {
            Ok(g) => g,
            Err(e) => {
                return Err(e);
            },
        };
        // Each machine under its final identifier.
        let mut out: Vec<MachineConfig> = Vec::new();
        let mut i: usize = 0;
        proof {
            assert(all.skip(0) =~= all);
            assert(all.take(0) =~= Seq::<Seq<char>>::empty());
            assert(views(out@.map_values(|m: MachineConfig| m.id)) =~= Seq::<Seq<char>>::empty());
            assert(ms.take(0) =~= Seq::<MachineView>::empty());
            assert(machine_views(out@) =~= Seq::<MachineView>::empty());
        }
        while i < n
            invariant
                n == cfgs@.len(),
                n == ids@.len(),
                all == views(ids@),
                ms == machine_views(cfgs@),
                ids_resolved(r@, ms) == Ok::<Seq<Seq<char>>, ErrorView>(all),
                first_duplicate(all) is None,
                i <= n,
                generator.wf(),
                generator.count() + empties(all) - empties(all.take(i as int)) <= n,
                final_ids(all) == views(out@.map_values(|m: MachineConfig| m.id)) + assigned_ids(
                    all.skip(i as int),
                    generator.taken(),
                    generator.next(),
                ),
                out@.len() == i,
                machines_merged(r@, defaults@, ms.take(i as int), final_ids(all)) == Ok::<
                    Seq<MachineView>,
                    ErrorView,
                >(machine_views(out@)),
            decreases n - i,
        {
            proof {
                assert(all.take(i + 1).drop_last() =~= all.take(i as int));
                lemma_empties_monotonic(all, i + 1, n as int);
                assert(all.take(n as int) =~= all);
                assert(all.skip(i as int).drop_first() =~= all.skip(i + 1));
                assert(all.skip(i as int)[0] == all[i as int]);
                assert(ms.take(i + 1).drop_last() =~= ms.take(i as int));
            }
            let ghost old_generator = generator;
            let id = generator.generate(ids[i].as_str());
            let ghost prefix = views(out@.map_values(|m: MachineConfig| m.id));
            proof {
                assert(final_ids(all) =~= prefix.push(id@) + assigned_ids(
                    all.skip(i + 1),
                    generator.taken(),
                    generator.next(),
                ));
                assert(final_ids(all)[i as int] == id@);
            }
            let ssh = match Self::resolve_ssh_config(id.as_str(), &defaults.ssh, &cfgs[i].ssh, r) {
                Ok(v) => v,
                Err(e) => {
                    proof {
                        lemma_machines_merged_prefix(r@, defaults@, ms, final_ids(all), i + 1);
                    }
                    return Err(e);
                },
            };
            let runners = match Self::resolve_runners_config(&defaults.runners, &cfgs[i].runners) {
                Ok(v) => v,
                Err(e) => {
                    return Err(e);
                },
            };
            let ghost old_out = out@;
            out.push(MachineConfig { id, ssh, runners });
            proof {
                assert(machine_views(out@) =~= machine_views(old_out).push(out@[i as int]@));
                assert(out@.map_values(|m: MachineConfig| m.id) =~= old_out.map_values(
                    |m: MachineConfig| m.id,
                ).push(out@[i as int].id));
                assert(views(out@.map_values(|m: MachineConfig| m.id)) =~= prefix.push(id@));
                assert(prefix.push(id@) + assigned_ids(
                    all.skip(i + 1),
                    generator.taken(),
                    generator.next(),
                ) == final_ids(all));
            }
            i = i + 1;
        }
        proof {
            assert(ms.take(n as int) =~= ms);
        }
        if out.len() == 0 {
            return Err(
                validation_failure(
                    string_from("There must be at least one machine in the configuration."),
                ),
            );
        }
        Ok(sort_by_id(&out))
    }
}

/// An identifier that fails to resolve makes the whole list fail with its error.
proof fn lemma_ids_resolved_prefix(r: ResolverView, ms: Seq<MachineView>, n: int)
    requires
        0 <= n <= ms.len(),
        ids_resolved(r, ms.take(n)) is Err,
    ensures
        ids_resolved(r, ms) == ids_resolved(r, ms.take(n)),
    decreases ms.len() - n,
{
    if n < ms.len() {
        assert(ms.take(n + 1).drop_last() =~= ms.take(n));
        lemma_ids_resolved_prefix(r, ms, n + 1);
    } else {
        assert(ms.take(n) =~= ms);
    }
}

/// A machine that fails to merge makes the whole list fail with its error.
proof fn lemma_machines_merged_prefix(
    r: ResolverView,
    d: MachineDefaultsView,
    ms: Seq<MachineView>,
    ids: Seq<Seq<char>>,
    n: int,
)
    requires
        0 <= n <= ms.len(),
        machines_merged(r, d, ms.take(n), ids) is Err,
    ensures
        machines_merged(r, d, ms, ids) == machines_merged(r, d, ms.take(n), ids),
    decreases ms.len() - n,
{
    if n < ms.len() {
        assert(ms.take(n + 1).drop_last() =~= ms.take(n));
        assert forall|j: int| 0 <= j < n + 1 implies ms.take(n + 1)[j] == ms[j] by {}
        lemma_machines_merged_prefix(r, d, ms, ids, n + 1);
    } else {
        assert(ms.take(n) =~= ms);
    }
}

/// The whole document resolved: the machine defaults first, then the GitHub
/// block, then the machines; the first failure along the way is the result.
pub open spec fn config_resolved(r: ResolverView, c: ConfigView) -> Result<ConfigView, ErrorView> {
    match default_ssh_resolved(r, c.machine_defaults.ssh) {
        Err(e) => Err(e),
        Ok(ssh) => {
            let d = MachineDefaultsView { ssh, runners: c.machine_defaults.runners };
            match github_resolved(r, c.github) {
                Err(e) => Err(e),
                Ok(github) => match machines_resolved(r, d, c.machines) {
                    Err(e) => Err(e),
                    Ok(machines) => Ok(
                        ConfigView { log_level: c.log_level, github, machine_defaults: d, machines },
                    ),
                },
            }
        },
    }
}

impl Config {
    /// Resolves a parsed document into a configuration whose every string is
    /// substituted and checked.
    pub fn resolve_config(r: &ConfigResolver, parsed_config: &Config) -> (res: Result<
        Config,
        ConfigError,
    >)
        ensures
            result_view(res) == config_resolved(r@, parsed_config@),
    {
        let machine_defaults = match Self::resolve_machine_defaults_config(
            &parsed_config.machine_defaults,
            r,
        ) {
            Ok(v) => v,
            Err(e) => {
                return Err(e);
            },
        };
        let github = match Self::resolve_github_config(&parsed_config.github, r) {
            Ok(v) => v,
            Err(e) => {
                return Err(e);
            },
        };
        let machines = match Self::resolve_machine_configs(
            &machine_defaults,
            &parsed_config.machines,
            r,
        ) {
            Ok(v) => v,
            Err(e) => {
                return Err(e);
            },
        };
        let res = Config { log_level: parsed_config.log_level, github, machine_defaults, machines };
        proof {
            assert(res@.machines == machine_views(machines@));
        }
        Ok(res)
    }
}

/// Whether `part` occurs somewhere in `message`.
pub open spec fn mentions(message: Seq<char>, part: Seq<char>) -> bool {
    exists|i: int|
        0 <= i && i + part.len() <= message.len() && #[trigger] message.subrange(i, i + part.len())
            == part
}

/// Resolving the same document twice, against the same directory, environment
/// and files, gives the same configuration, character for character.
pub proof fn lemma_resolution_deterministic(
    r1: ResolverView,
    r2: ResolverView,
    c1: ConfigView,
    c2: ConfigView,
)
    requires
        r1 == r2,
        c1 == c2,
    ensures
        config_resolved(r1, c1) == config_resolved(r2, c2),
{
}

/// Whether the host, fingerprint and user name of a machine all resolve, the
/// host and user name to something non-empty.
pub open spec fn reachable(r: ResolverView, id: Seq<char>, d: SshView, c: SshView) -> bool {
    &&& resolved_or_else(r, c.host, host_fallback(id, d)) matches Ok(h) && h.len() > 0
    &&& resolved(r, c.fingerprint) is Ok
    &&& resolved_or_else(r, c.username, username_fallback(id, d)) matches Ok(u) && u.len() > 0
}

/// A merged machine always has a host, a user name, and a password or a
/// private key.
pub proof fn lemma_merged_machine_complete(r: ResolverView, id: Seq<char>, d: SshView, c: SshView)
    ensures
        ssh_resolved(r, id, d, c) matches Ok(v) ==> {
            &&& v.host.len() > 0
            &&& v.username.len() > 0
            &&& v.password.len() > 0 || v.private_key.len() > 0
        },
{
}

/// A machine with both a private key and a password of its own authenticates
/// by the key: the merge succeeds with an empty password and the machine's
/// own key and passphrase, resolved. This needs the key to resolve to
/// something non-empty; where it resolves to nothing, the machine has no
/// credentials and is refused.
pub proof fn lemma_machine_key_beats_machine_password(
    r: ResolverView,
    id: Seq<char>,
    d: SshView,
    c: SshView,
    key: Seq<char>,
)
    requires
        c.private_key.len() > 0,
        c.password.len() > 0,
        reachable(r, id, d, c),
        resolved(r, c.private_key) == Ok::<Seq<char>, ErrorView>(key),
        key.len() > 0,
        resolved(r, c.private_key_passphrase) is Ok,
    ensures
        ssh_resolved(r, id, d, c) matches Ok(v) && v.password.len() == 0 && v.private_key == key
            && resolved(r, c.private_key_passphrase) == Ok::<Seq<char>, ErrorView>(
            v.private_key_passphrase,
        ),
{
    assert(resolved(r, Seq::<char>::empty()) == Ok::<Seq<char>, ErrorView>(Seq::empty()));
}

/// A machine with no credentials of its own, under defaults with both a
/// private key and a password, authenticates by the default key: the merge
/// succeeds with an empty password and the default key and passphrase,
/// resolved. This needs the default key to resolve to something non-empty.
pub proof fn lemma_default_key_beats_default_password(
    r: ResolverView,
    id: Seq<char>,
    d: SshView,
    c: SshView,
    key: Seq<char>,
)
    requires
        c.private_key.len() == 0,
        c.password.len() == 0,
        d.private_key.len() > 0,
        d.password.len() > 0,
        reachable(r, id, d, c),
        resolved(r, d.private_key) == Ok::<Seq<char>, ErrorView>(key),
        key.len() > 0,
        resolved(r, d.private_key_passphrase) is Ok,
    ensures
        ssh_resolved(r, id, d, c) matches Ok(v) && v.password.len() == 0 && v.private_key == key
            && resolved(r, d.private_key_passphrase) == Ok::<Seq<char>, ErrorView>(
            v.private_key_passphrase,
        ),
{
    assert(resolved(r, Seq::<char>::empty()) == Ok::<Seq<char>, ErrorView>(Seq::empty()));
}

/// Of two machines, the first with identifier `x` and the second with none,
/// the second gets `machine-1`, or `machine-2` where `x` is `machine-1`.
pub proof fn lemma_second_machine_numbered(x: Seq<char>)
    requires
        x.len() > 0,
    ensures
        final_ids(seq![x, Seq::empty()]) == seq![
            x,
            if x == generated_id(1) {
                generated_id(2)
            } else {
                generated_id(1)
            },
        ],
{
    let ids = seq![x, Seq::<char>::empty()];
    let taken = explicit_ids(ids);
    assert(taken =~= set![x]) by {
        assert(ids[0] == x);
        assert forall|y: Seq<char>| taken.contains(y) implies y == x by {
            let j = choose|j: int| 0 <= j < ids.len() && ids[j] == y;
        }
    }
    assert(ids.drop_first() =~= seq![Seq::<char>::empty()]);
    assert(ids.drop_first().drop_first() =~= Seq::<Seq<char>>::empty());
    if x == generated_id(1) {
        if generated_id(2) == x {
            lemma_generated_id_injective(1, 2);
        }
        assert(is_first_free(taken, 1, 2));
        lemma_first_free_unique(taken, 1, 2);
    } else {
        assert(is_first_free(taken, 1, 1));
        lemma_first_free_unique(taken, 1, 1);
    }
    let k = first_free(taken, 1);
    let rest = ids.drop_first();
    assert(rest[0].len() == 0);
    assert(assigned_ids(rest.drop_first(), taken.insert(generated_id(k)), k) == Seq::<
        Seq<char>,
    >::empty());
    assert(assigned_ids(rest, taken, 1) =~= seq![generated_id(k)]);
    assert(final_ids(ids) == seq![x] + assigned_ids(rest, taken, 1));
    assert(final_ids(ids) =~= seq![x, generated_id(k)]);
}

/// An empty machine list is refused, with a message that asks for at least
/// one machine.
pub proof fn lemma_empty_machine_list_refused(r: ResolverView, d: MachineDefaultsView)
    ensures
        machines_resolved(r, d, Seq::empty()) == invalid::<Seq<MachineView>>(
            "There must be at least one machine in the configuration."@,
        ),
        mentions(
            "There must be at least one machine in the configuration."@,
            "at least one machine"@,
        ),
{
    reveal_strlit("There must be at least one machine in the configuration.");
    reveal_strlit("at least one machine");
    let m = "There must be at least one machine in the configuration."@;
    let part = "at least one machine"@;
    let at: int = 14;
    assert(m.subrange(at, at + part.len()) =~= part);
    assert(ids_resolved(r, Seq::empty()) == Ok::<Seq<Seq<char>>, ErrorView>(Seq::empty()));
    assert(first_duplicate(Seq::<Seq<char>>::empty()) is None);
}

/// Two machines whose identifiers both resolve to the same non-empty `x` are
/// refused, with a message that quotes `x`.
pub proof fn lemma_duplicate_id_refused(
    r: ResolverView,
    d: MachineDefaultsView,
    ms: Seq<MachineView>,
    x: Seq<char>,
)
    requires
        ms.len() == 2,
        x.len() > 0,
        resolved(r, ms[0].id) == Ok::<Seq<char>, ErrorView>(x),
        resolved(r, ms[1].id) == Ok::<Seq<char>, ErrorView>(x),
    ensures
        machines_resolved(r, d, ms) == invalid::<Seq<MachineView>>(duplicate_message(x)),
        mentions(duplicate_message(x), "'"@ + x + "'"@),
{
    reveal_strlit("A duplicate machine ID '");
    reveal_strlit("' was found.");
    reveal_strlit("'");
    let one = ms.drop_last();
    assert(one.drop_last() =~= Seq::<MachineView>::empty());
    assert(one.last() == ms[0]);
    assert(ids_resolved(r, one.drop_last()) == Ok::<Seq<Seq<char>>, ErrorView>(Seq::empty()));
    assert(Seq::<Seq<char>>::empty().push(x) =~= seq![x]);
    assert(ids_resolved(r, one) == Ok::<Seq<Seq<char>>, ErrorView>(seq![x]));
    assert(ms.last() == ms[1]);
    assert(seq![x].push(x) =~= seq![x, x]);
    assert(ids_resolved(r, ms) == Ok::<Seq<Seq<char>>, ErrorView>(seq![x, x]));
    let ids = seq![x, x];
    assert(ids.drop_last() =~= seq![x]);
    assert(seq![x].drop_last() =~= Seq::<Seq<char>>::empty());
    assert(first_duplicate(Seq::<Seq<char>>::empty()) is None);
    assert(!Seq::<Seq<char>>::empty().contains(x));
    assert(first_duplicate(seq![x]) is None);
    assert(seq![x].contains(x)) by {
        assert(seq![x][0] == x);
    }
    assert(ids.last() == x);
    assert(first_duplicate(ids) == Some(x));
    let m = duplicate_message(x);
    let part = "'"@ + x + "'"@;
    let at: int = 23;
    assert(m.subrange(at, at + part.len()) =~= part);
}

/// A token that does not start with `ghp_`, whether empty, shorter or
/// different, is refused with a message that names the token's field.
pub proof fn lemma_bad_token_refused(g: GithubView)
    requires
        !"ghp_"@.is_prefix_of(g.personal_access_token),
    ensures
        github_checked(g) matches Err(ErrorView::Validation { message }) && mentions(
            message,
            "github.personal_access_token"@,
        ),
{
    reveal_strlit(
        "An empty or missing value in 'github.personal_access_token'. A GitHub personal access token must start with 'ghp_'.",
    );
    reveal_strlit(
        "An invalid value in 'github.personal_access_token'. A GitHub personal access token must start with 'ghp_'.",
    );
    reveal_strlit("github.personal_access_token");
    let part = "github.personal_access_token"@;
    if g.personal_access_token.len() == 0 {
        let m =
            "An empty or missing value in 'github.personal_access_token'. A GitHub personal access token must start with 'ghp_'."@;
        let at: int = 30;
    assert(m.subrange(at, at + part.len()) =~= part);
    } else {
        let m =
            "An invalid value in 'github.personal_access_token'. A GitHub personal access token must start with 'ghp_'."@;
        let at: int = 21;
    assert(m.subrange(at, at + part.len()) =~= part);
    }
}

/// No two machines of the list share an identifier.
pub open spec fn ids_distinct(s: Seq<MachineView>) -> bool {
    forall|i: int, j: int| 0 <= i < s.len() && 0 <= j < s.len() && i != j ==> s[i].id != s[j].id
}

proof fn lemma_sorted_members(s: Seq<MachineView>)
    ensures
        sorted_by_id(s).len() == s.len(),
        forall|k: int|
            0 <= k < s.len() ==> exists|m: int| 0 <= m < s.len() && #[trigger] sorted_by_id(s)[k] == s[m],
        ids_distinct(s) ==> ids_distinct(sorted_by_id(s)),
    decreases s.len(),
{
    if s.len() > 0 {
        let p = s.drop_last();
        let x = s.last();
        lemma_sorted_members(p);
        let sp = sorted_by_id(p);
        lemma_insert_by_id_position(x, sp);
        let k = choose|k: int| 0 <= k <= sp.len() && insert_by_id(x, sp) == sp.insert(k, x);
        let t = sorted_by_id(s);
        assert(t == sp.insert(k, x));
        assert forall|i: int| 0 <= i < s.len() implies exists|m: int|
            0 <= m < s.len() && #[trigger] t[i] == s[m] by {
            if i == k {
                assert(t[i] == s[s.len() - 1]);
            } else {
                let j = if i < k {
                    i
                } else {
                    i - 1
                };
                assert(t[i] == sp[j]);
                let m = choose|m: int| 0 <= m < p.len() && sp[j] == p[m];
                assert(t[i] == s[m]);
            }
        }
        if ids_distinct(s) {
            assert(ids_distinct(p)) by {
                assert forall|i: int, j: int|
                    0 <= i < p.len() && 0 <= j < p.len() && i != j implies p[i].id != p[j].id by {
                    assert(p[i] == s[i] && p[j] == s[j]);
                }
            }
            assert forall|i: int, j: int|
                0 <= i < t.len() && 0 <= j < t.len() && i != j implies t[i].id != t[j].id by {
                if i != k && j != k {
                    let a = if i < k {
                        i
                    } else {
                        i - 1
                    };
                    let b = if j < k {
                        j
                    } else {
                        j - 1
                    };
                    assert(t[i] == sp[a] && t[j] == sp[b]);
                } else {
                    let o = if i == k {
                        j
                    } else {
                        i
                    };
                    let a = if o < k {
                        o
                    } else {
                        o - 1
                    };
                    assert(t[o] == sp[a]);
                    let m = choose|m: int| 0 <= m < p.len() && sp[a] == p[m];
                    assert(p[m] == s[m]);
                    assert(s[m].id != s[s.len() - 1].id);
                }
            }
        }
    }
}

proof fn lemma_ids_resolved_len(r: ResolverView, ms: Seq<MachineView>)
    ensures
        ids_resolved(r, ms) matches Ok(ids) ==> ids.len() == ms.len(),
    decreases ms.len(),
{
    if ms.len() > 0 {
        lemma_ids_resolved_len(r, ms.drop_last());
    }
}

proof fn lemma_machines_merged_ids(
    r: ResolverView,
    d: MachineDefaultsView,
    ms: Seq<MachineView>,
    ids: Seq<Seq<char>>,
)
    requires
        ids.len() >= ms.len(),
    ensures
        machines_merged(r, d, ms, ids) matches Ok(out) ==> out.len() == ms.len() && forall|i: int|
            0 <= i < out.len() ==> (#[trigger] out[i]).id == ids[i],
    decreases ms.len(),
{
    if ms.len() > 0 {
        lemma_machines_merged_ids(r, d, ms.drop_last(), ids);
    }
}

/// Every machine of a resolved list has an identifier of its own.
pub proof fn lemma_resolved_ids_unique(r: ResolverView, d: MachineDefaultsView, ms: Seq<MachineView>)
    ensures
        machines_resolved(r, d, ms) matches Ok(out) ==> ids_distinct(out),
{
    lemma_ids_resolved_len(r, ms);
    if let Ok(ids) = ids_resolved(r, ms) {
        if first_duplicate(ids) is None {
            lemma_final_ids_distinct(ids);
            let f = final_ids(ids);
            lemma_machines_merged_ids(r, d, ms, f);
            if let Ok(out) = machines_merged(r, d, ms, f) {
                assert(ids_distinct(out)) by {
                    assert forall|i: int, j: int|
                        0 <= i < out.len() && 0 <= j < out.len() && i != j implies out[i].id
                        != out[j].id by {
                        assert(out[i].id == f[i] && out[j].id == f[j]);
                    }
                }
                lemma_sorted_members(out);
            }
        }
    }
}

} // verus!
