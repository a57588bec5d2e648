use gh_actions_scaler::config::{
    default_github_runner_name_prefix, default_github_runner_scope, mask_credential, Config,
    ConfigError, FileError, GithubConfig, GithubRunnerConfig, LogLevel, MachineConfig,
    MachineDefaultsConfig, RunnersConfig, SshConfig, VarError,
};
use gh_actions_scaler::resolver::ConfigResolver;

const CONFIG_DIR: &str = "tests/fixtures/config";

fn s(x: &str) -> String {
    x.to_string()
}

fn ssh(
    host: &str,
    port: u16,
    fingerprint: &str,
    username: &str,
    password: &str,
    private_key: &str,
    private_key_passphrase: &str,
) -> SshConfig {
    SshConfig {
        host: s(host),
        port,
        fingerprint: s(fingerprint),
        username: s(username),
        password: s(password),
        private_key: s(private_key),
        private_key_passphrase: s(private_key_passphrase),
    }
}

fn github_with(token: &str, name_prefix: &str, scope: &str, repo_url: &str) -> GithubConfig {
    GithubConfig {
        personal_access_token: s(token),
        runners: GithubRunnerConfig {
            name_prefix: s(name_prefix),
            scope: s(scope),
            repo_url: s(repo_url),
        },
    }
}

fn github(token: &str) -> GithubConfig {
    github_with(
        token,
        "runner",
        "repo",
        "https://github.com/trustin/gh-actions-scaler",
    )
}

fn machine(id: &str, ssh: SshConfig, max: u32) -> MachineConfig {
    MachineConfig {
        id: s(id),
        ssh,
        runners: RunnersConfig { max },
    }
}

fn password_machine(id: &str) -> MachineConfig {
    machine(id, ssh("alpha.example.tld", 0, "", "trustin", "my_secret_password", "", ""), 0)
}

fn document(
    github: GithubConfig,
    machine_defaults: MachineDefaultsConfig,
    machines: Vec<MachineConfig>,
) -> Config {
    Config {
        log_level: LogLevel::default(),
        github,
        machine_defaults,
        machines,
    }
}

fn no_defaults() -> MachineDefaultsConfig {
    MachineDefaultsConfig::default()
}

fn minimal_document() -> Config {
    document(
        github("ghp_my_secret_token"),
        no_defaults(),
        vec![password_machine("")],
    )
}

fn resolve_with(r: &ConfigResolver, doc: &Config) -> Result<Config, ConfigError> {
    Config::resolve_config(r, doc)
}

fn resolve(doc: &Config) -> Result<Config, ConfigError> {
    resolve_with(&ConfigResolver::new(CONFIG_DIR), doc)
}

fn read_config(doc: &Config) -> Config {
    match resolve(doc) {
        Ok(c) => c,
        Err(e) => panic!("Unexpected: {:?}", e),
    }
}

fn read_invalid_config(doc: &Config) -> ConfigError {
    match resolve(doc) {
        Ok(_) => panic!("Unexpected success"),
        Err(e) => e,
    }
}

fn validation_message(err: ConfigError) -> String {
    match err {
        ConfigError::ValidationFailure { message } => message,
        _ => panic!("Unexpected: {:?} (expected: ValidationFailure)", err),
    }
}

#[test]
fn minimal() {
    let config = read_config(&minimal_document());
    let expected = Config {
        log_level: LogLevel::Info,
        github: github("ghp_my_secret_token"),
        machine_defaults: MachineDefaultsConfig {
            ssh: ssh("", 0, "", "", "", "", ""),
            runners: RunnersConfig { max: 0 },
        },
        machines: vec![MachineConfig {
            id: s("machine-1"),
            runners: RunnersConfig { max: 16 },
            ssh: ssh("alpha.example.tld", 22, "", "trustin", "my_secret_password", "", ""),
        }],
    };
    assert!(config == expected);
}

#[test]
fn default_log_level() {
    let config = read_config(&minimal_document());
    assert_eq!(config.log_level, LogLevel::Info);
}

#[test]
fn default_runners_config() {
    let config = read_config(&minimal_document());
    let machines = &config.machines;
    assert_eq!(machines.len(), 1);
    assert_eq!(machines[0].runners, RunnersConfig { max: 16 });
}

fn env_var_document() -> Config {
    document(
        github("${GH_ACTIONS_SCALER_FOO}"),
        no_defaults(),
        vec![password_machine("")],
    )
}

#[test]
fn config_success() {
    let mut r = ConfigResolver::new(CONFIG_DIR);
    r.set_env(s("GH_ACTIONS_SCALER_FOO"), Ok(s("ghp_my_secret_token")));
    let config = resolve_with(&r, &env_var_document()).unwrap_or_else(|e| panic!("{:?}", e));
    assert_eq!(config.github.personal_access_token.as_str(), "ghp_my_secret_token");
}

#[test]
fn missing_env_var() {
    let err = read_invalid_config(&env_var_document());
    match err {
        ConfigError::UnresolvedEnvironmentVariable { name, cause } => {
            assert_eq!(name.as_str(), "GH_ACTIONS_SCALER_FOO");
            assert!(matches!(cause, VarError::NotPresent));
        }
        _ => {
            panic!(
                "Unexpected: {:?} (expected: UnresolvedEnvironmentVariable)",
                err
            );
        }
    }
}

#[test]
fn env_var_not_unicode() {
    let mut r = ConfigResolver::new(CONFIG_DIR);
    r.set_env(s("GH_ACTIONS_SCALER_FOO"), Err(VarError::NotUnicode));
    match resolve_with(&r, &env_var_document()) {
        Err(ConfigError::UnresolvedEnvironmentVariable { name, cause }) => {
            assert_eq!(name.as_str(), "GH_ACTIONS_SCALER_FOO");
            assert_eq!(cause, VarError::NotUnicode);
        }
        other => panic!("Unexpected: {:?}", other.err()),
    }
}

#[test]
fn file_substitution_success() {
    let mut r = ConfigResolver::new(CONFIG_DIR);
    r.set_file(s("tests/fixtures/config/token.txt"), Ok(s("ghp_my_secret_token\n \t\n")));
    let doc = document(github("${file:token.txt}"), no_defaults(), vec![password_machine("")]);
    let config = resolve_with(&r, &doc).unwrap_or_else(|e| panic!("{:?}", e));
    assert_eq!(config.github.personal_access_token.as_str(), "ghp_my_secret_token");
}

#[test]
fn config_non_existent_file() {
    let doc = document(
        github("${file:non_existent_file}"),
        no_defaults(),
        vec![password_machine("")],
    );
    let err = read_invalid_config(&doc);
    match err {
        ConfigError::UnresolvedFileVariable { path, cause } => {
            assert_eq!(path.as_str(), "tests/fixtures/config/non_existent_file");
            assert_eq!(cause, FileError::NotFound);
        }
        _ => {
            panic!("Unexpected: {:?} (expected: UnresolvedFileVariable)", err);
        }
    }
}

#[test]
fn unreadable_file() {
    let mut r = ConfigResolver::new(CONFIG_DIR);
    r.set_file(s("tests/fixtures/config/secret"), Err(FileError::PermissionDenied));
    let doc = document(github("${file:secret}"), no_defaults(), vec![password_machine("")]);
    match resolve_with(&r, &doc) {
        Err(ConfigError::UnresolvedFileVariable { path, cause }) => {
            assert_eq!(path.as_str(), "tests/fixtures/config/secret");
            assert_eq!(cause, FileError::PermissionDenied);
        }
        other => panic!("Unexpected: {:?}", other.err()),
    }
}

#[test]
fn empty_or_missing_personal_access_token() {
    let doc = document(github(""), no_defaults(), vec![password_machine("")]);
    let message = validation_message(read_invalid_config(&doc));
    assert!(message.contains("github.personal_access_token"));
    assert!(message.contains("empty or missing"));
}

#[test]
fn invalid_personal_access_token() {
    let doc = document(github("1234567890"), no_defaults(), vec![password_machine("")]);
    let message = validation_message(read_invalid_config(&doc));
    assert!(message.contains("github.personal_access_token"));
    assert!(message.contains("invalid"));
}

#[test]
fn short_personal_access_token() {
    let doc = document(github("ghp"), no_defaults(), vec![password_machine("")]);
    let message = validation_message(read_invalid_config(&doc));
    assert!(message.contains("github.personal_access_token"));
}

#[test]
fn empty_name_prefix() {
    let doc = document(
        github_with("ghp_x", "", "repo", "https://github.com/a/b"),
        no_defaults(),
        vec![password_machine("")],
    );
    let message = validation_message(read_invalid_config(&doc));
    assert!(message.contains("github.runners.name_prefix"));
    assert!(message.contains("empty"));
}

#[test]
fn unsupported_scope() {
    let doc = document(
        github_with("ghp_x", "runner", "org", "https://github.com/a/b"),
        no_defaults(),
        vec![password_machine("")],
    );
    let message = validation_message(read_invalid_config(&doc));
    assert_eq!(
        message,
        "An unsupported value 'org' in 'github.runners.scope'. 'repo' is the only supported value at the moment."
    );
    assert!(message.contains("'org'"));
    assert!(message.contains("'repo'"));
}

#[test]
fn empty_or_missing_repo_url() {
    let doc = document(
        github_with("ghp_x", "runner", "repo", ""),
        no_defaults(),
        vec![password_machine("")],
    );
    let message = validation_message(read_invalid_config(&doc));
    assert!(message.contains("github.runners.repo_url"));
    assert!(message.contains("empty or missing"));
}

#[test]
fn invalid_repo_url() {
    let doc = document(
        github_with("ghp_x", "runner", "repo", "ftp://x"),
        no_defaults(),
        vec![password_machine("")],
    );
    let message = validation_message(read_invalid_config(&doc));
    assert!(message.contains("github.runners.repo_url"));
    assert!(message.contains("invalid"));
    assert!(message.contains("invalid URL"));
    assert!(message.contains("'ftp://x'"));
}

#[test]
fn plain_http_repo_url() {
    let doc = document(
        github_with("ghp_x", "runner", "repo", "http://ghe.example/a/b"),
        no_defaults(),
        vec![password_machine("")],
    );
    let config = read_config(&doc);
    assert_eq!(config.github.runners.repo_url.as_str(), "http://ghe.example/a/b");
}

#[test]
fn github_checked_before_machines() {
    let doc = document(github("nope"), no_defaults(), vec![]);
    let message = validation_message(read_invalid_config(&doc));
    assert!(message.contains("github.personal_access_token"));
}

#[test]
fn empty_machines() {
    let doc = document(github("ghp_x"), no_defaults(), vec![]);
    let message = validation_message(read_invalid_config(&doc));
    assert!(message.contains("at least one machine"));
}

#[test]
fn duplicate_machine_id() {
    let doc = document(
        github("ghp_x"),
        no_defaults(),
        vec![
            password_machine("machine-alpha"),
            password_machine("machine-beta"),
            password_machine("machine-alpha"),
        ],
    );
    let message = validation_message(read_invalid_config(&doc));
    assert!(message.contains("duplicate machine ID"));
    assert!(message.contains("'machine-alpha'"));
}

#[test]
fn duplicate_machine_id_after_substitution() {
    let mut r = ConfigResolver::new(CONFIG_DIR);
    r.set_env(s("HOST_ID"), Ok(s("x")));
    let doc = document(
        github("ghp_x"),
        no_defaults(),
        vec![password_machine("x"), password_machine("${HOST_ID}")],
    );
    match resolve_with(&r, &doc) {
        Err(ConfigError::ValidationFailure { message }) => {
            assert_eq!(message, "A duplicate machine ID 'x' was found.");
        }
        other => panic!("Unexpected: {:?}", other.err()),
    }
}

#[test]
fn generated_machine_id() {
    let doc = document(
        github("ghp_x"),
        no_defaults(),
        vec![
            password_machine(""),
            password_machine(""),
            password_machine(""),
            password_machine(""),
        ],
    );
    let config = read_config(&doc);
    let machines = &config.machines;
    assert_eq!(machines.len(), 4);
    assert_eq!(machines[0].id.as_str(), "machine-1");
    assert_eq!(machines[1].id.as_str(), "machine-2");
    assert_eq!(machines[2].id.as_str(), "machine-3");
    assert_eq!(machines[3].id.as_str(), "machine-4");
}

#[test]
fn generated_id_after_explicit_id() {
    let doc = document(
        github("ghp_x"),
        no_defaults(),
        vec![password_machine("a"), password_machine("")],
    );
    let config = read_config(&doc);
    let ids: Vec<&str> = config.machines.iter().map(|m| m.id.as_str()).collect();
    assert_eq!(ids, vec!["a", "machine-1"]);
}

#[test]
fn generated_id_skips_taken_id() {
    let doc = document(
        github("ghp_x"),
        no_defaults(),
        vec![password_machine("machine-1"), password_machine("")],
    );
    let config = read_config(&doc);
    let ids: Vec<&str> = config.machines.iter().map(|m| m.id.as_str()).collect();
    assert_eq!(ids, vec!["machine-1", "machine-2"]);
}

#[test]
fn generated_ids_skip_later_explicit_ids() {
    let doc = document(
        github("ghp_x"),
        no_defaults(),
        vec![
            password_machine(""),
            password_machine(""),
            password_machine("machine-2"),
            password_machine("machine-10"),
        ],
    );
    let config = read_config(&doc);
    let ids: Vec<&str> = config.machines.iter().map(|m| m.id.as_str()).collect();
    assert_eq!(ids, vec!["machine-1", "machine-10", "machine-2", "machine-3"]);
}

#[test]
fn machines_sorted_by_id() {
    let doc = document(
        github("ghp_x"),
        no_defaults(),
        vec![password_machine("b"), password_machine("c"), password_machine("a")],
    );
    let config = read_config(&doc);
    let ids: Vec<&str> = config.machines.iter().map(|m| m.id.as_str()).collect();
    assert_eq!(ids, vec!["a", "b", "c"]);
}

#[test]
fn machines_without_defaults() {
    let doc = document(
        github("ghp_x"),
        no_defaults(),
        vec![
            machine(
                "machine-alpha",
                ssh(
                    "172.18.0.100",
                    8022,
                    "12:34:56:78:9a:bc:de:f0:11:22:33:44:55:66:77:88",
                    "abc",
                    "def",
                    "",
                    "ignored_passphrase",
                ),
                3,
            ),
            machine("machine-beta", ssh("172.18.0.101", 0, "", "ghi", "", "jkl", "mno"), 0),
            machine(
                "machine-theta",
                ssh("172.18.0.102", 0, "", "pqr", "ignored_password", "stu", "vwx"),
                0,
            ),
        ],
    );
    let machines = read_config(&doc).machines;
    let expected = vec![
        MachineConfig {
            id: s("machine-alpha"),
            ssh: ssh(
                "172.18.0.100",
                8022,
                "12:34:56:78:9a:bc:de:f0:11:22:33:44:55:66:77:88",
                "abc",
                "def",
                "",
                // Must be ignored because using password auth
                "",
            ),
            runners: RunnersConfig { max: 3 },
        },
        MachineConfig {
            id: s("machine-beta"),
            ssh: ssh("172.18.0.101", 22, "", "ghi", "", "jkl", "mno"),
            runners: RunnersConfig { max: 16 },
        },
        MachineConfig {
            id: s("machine-theta"),
            // Must be ignored because using private key auth
            ssh: ssh("172.18.0.102", 22, "", "pqr", "", "stu", "vwx"),
            runners: RunnersConfig { max: 16 },
        },
    ];
    assert!(machines == expected);
}

fn defaults_with_key_and_password() -> MachineDefaultsConfig {
    MachineDefaultsConfig {
        ssh: ssh(
            "default_host",
            8022,
            "default_fingerprint",
            "default_username",
            "default_password",
            "default_private_key",
            "default_private_key_passphrase",
        ),
        runners: RunnersConfig { max: 0 },
    }
}

#[test]
fn machines_with_defaults() {
    let doc = document(
        github("ghp_x"),
        defaults_with_key_and_password(),
        vec![
            machine("machine-alpha", ssh("", 0, "", "", "", "", ""), 0),
            machine(
                "machine-beta",
                ssh(
                    "172.18.0.101",
                    10022,
                    "12:34:56:78:9a:bc:de:f0:11:22:33:44:55:66:77:88",
                    "abc",
                    "def",
                    "",
                    "",
                ),
                0,
            ),
            machine("machine-theta", ssh("172.18.0.102", 0, "", "", "", "ghi", "jkl"), 0),
        ],
    );
    let config = read_config(&doc);
    // A fingerprint among the defaults is dropped.
    assert_eq!(config.machine_defaults.ssh.fingerprint.as_str(), "");
    let expected = vec![
        MachineConfig {
            id: s("machine-alpha"),
            ssh: ssh(
                "default_host",
                8022,
                "",
                "default_username",
                // The default password must be ignored,
                // because the default private key was specified *and* no per-machine auth was configured.
                "",
                "default_private_key",
                "default_private_key_passphrase",
            ),
            runners: RunnersConfig { max: 16 },
        },
        MachineConfig {
            id: s("machine-beta"),
            ssh: ssh(
                "172.18.0.101",
                10022,
                "12:34:56:78:9a:bc:de:f0:11:22:33:44:55:66:77:88",
                "abc",
                "def",
                // The default private key must be ignored,
                // because the per-machine password was specified.
                "",
                "",
            ),
            runners: RunnersConfig { max: 16 },
        },
        MachineConfig {
            id: s("machine-theta"),
            ssh: ssh(
                "172.18.0.102",
                8022,
                "",
                "default_username",
                // The default password must be ignored,
                // because the per-machine private key was specified.
                "",
                "ghi",
                "jkl",
            ),
            runners: RunnersConfig { max: 16 },
        },
    ];
    assert!(config.machines == expected);
}

#[test]
fn machine_key_beats_machine_password() {
    let doc = document(
        github("ghp_x"),
        no_defaults(),
        vec![machine("m", ssh("h", 0, "", "u", "pw", "key", "pp"), 0)],
    );
    let m = &read_config(&doc).machines[0];
    assert_eq!(m.ssh.password.as_str(), "");
    assert_eq!(m.ssh.private_key.as_str(), "key");
    assert_eq!(m.ssh.private_key_passphrase.as_str(), "pp");
}

#[test]
fn default_key_beats_default_password() {
    let doc = document(
        github("ghp_x"),
        defaults_with_key_and_password(),
        vec![machine("m", ssh("h", 0, "", "u", "", "", ""), 0)],
    );
    let m = &read_config(&doc).machines[0];
    assert_eq!(m.ssh.password.as_str(), "");
    assert_eq!(m.ssh.private_key.as_str(), "default_private_key");
}

#[test]
fn missing_host() {
    let doc = document(
        github("ghp_x"),
        no_defaults(),
        vec![machine("m", ssh("", 0, "", "u", "pw", "", ""), 0)],
    );
    let message = validation_message(read_invalid_config(&doc));
    assert_eq!(message, "'host' must be specified for machine 'm'.");
}

#[test]
fn missing_username() {
    let doc = document(
        github("ghp_x"),
        no_defaults(),
        vec![machine("m", ssh("h", 0, "", "", "pw", "", ""), 0)],
    );
    let message = validation_message(read_invalid_config(&doc));
    assert_eq!(message, "'username' must be specified for machine 'm'.");
}

#[test]
fn missing_credentials() {
    let doc = document(
        github("ghp_x"),
        no_defaults(),
        vec![machine("", ssh("h", 0, "", "u", "", "", ""), 0)],
    );
    let message = validation_message(read_invalid_config(&doc));
    assert_eq!(
        message,
        "'password' or 'private_key' must be specified for machine 'machine-1'."
    );
}

#[test]
fn fingerprint_not_inherited() {
    let doc = document(
        github("ghp_x"),
        defaults_with_key_and_password(),
        vec![machine("m", ssh("", 0, "", "", "", "", ""), 0)],
    );
    let m = &read_config(&doc).machines[0];
    assert_eq!(m.ssh.fingerprint.as_str(), "");
}

#[test]
fn default_machine_runners_config() {
    let config = read_config(&minimal_document());
    assert_eq!(config.machines[0].runners.max, 16);
}

#[test]
fn default_machine_runners_config_from_defaults() {
    let mut defaults = no_defaults();
    defaults.runners = RunnersConfig { max: 8 };
    let doc = document(github("ghp_x"), defaults, vec![password_machine("")]);
    let config = read_config(&doc);
    assert_eq!(config.machines[0].runners.max, 8);
}

#[test]
fn overridden_machine_runners_config() {
    let mut defaults = no_defaults();
    defaults.runners = RunnersConfig { max: 8 };
    let doc = document(github("ghp_x"), defaults, vec![machine("", password_machine("").ssh, 4)]);
    let config = read_config(&doc);
    assert_eq!(config.machines[0].runners.max, 4);
}

#[test]
fn resolving_twice_gives_the_same_config() {
    let mut r = ConfigResolver::new(CONFIG_DIR);
    r.set_env(s("TOKEN"), Ok(s("ghp_abc")));
    r.set_file(s("tests/fixtures/config/pw"), Ok(s("secret\n")));
    let doc = document(
        github("${TOKEN}"),
        no_defaults(),
        vec![
            machine("", ssh("h", 0, "", "u", "${file:pw}", "", ""), 0),
            machine("z", ssh("h2", 0, "", "u", "p$$", "", ""), 0),
        ],
    );
    let first = resolve_with(&r, &doc).unwrap_or_else(|e| panic!("{:?}", e));
    let second = resolve_with(&r, &doc).unwrap_or_else(|e| panic!("{:?}", e));
    assert!(first == second);
    assert_eq!(first.machines[0].ssh.password.as_str(), "secret");
    assert_eq!(first.machines[1].ssh.password.as_str(), "p$");
}

#[test]
fn log_level_kept() {
    let mut doc = minimal_document();
    doc.log_level = LogLevel::Warn;
    assert_eq!(read_config(&doc).log_level, LogLevel::Warn);
}

#[test]
fn level_filter_of_each_level() {
    assert_eq!(LogLevel::Trace.to_level_filter(), log::LevelFilter::Trace);
    assert_eq!(LogLevel::Debug.to_level_filter(), log::LevelFilter::Debug);
    assert_eq!(LogLevel::Info.to_level_filter(), log::LevelFilter::Info);
    assert_eq!(LogLevel::Warn.to_level_filter(), log::LevelFilter::Warn);
    assert_eq!(LogLevel::Error.to_level_filter(), log::LevelFilter::Error);
    assert_eq!(LogLevel::Off.to_level_filter(), log::LevelFilter::Off);
}

#[test]
fn credentials_masked() {
    assert_eq!(mask_credential(""), "");
    assert_eq!(mask_credential("ghp_secret"), "[REDACTED]");
}

#[test]
fn serde_defaults() {
    assert_eq!(default_github_runner_name_prefix(), "runner");
    assert_eq!(default_github_runner_scope(), "repo");
}

#[test]
fn host_empty_after_substitution() {
    let mut r = ConfigResolver::new(CONFIG_DIR);
    r.set_env(s("E"), Ok(String::new()));
    let doc = document(
        github("ghp_x"),
        no_defaults(),
        vec![machine("m", ssh("${E}", 0, "", "u", "p", "", ""), 0)],
    );
    match resolve_with(&r, &doc) {
        Err(ConfigError::ValidationFailure { message }) => {
            assert_eq!(message, "'host' must be specified for machine 'm'.");
        }
        other => panic!("Unexpected: {:?}", other.err()),
    }
}

#[test]
fn username_empty_after_substitution() {
    let mut r = ConfigResolver::new(CONFIG_DIR);
    r.set_env(s("E"), Ok(String::new()));
    let mut defaults = no_defaults();
    defaults.ssh.username = s("${E}");
    let doc = document(
        github("ghp_x"),
        defaults,
        vec![machine("m", ssh("h", 0, "", "", "p", "", ""), 0)],
    );
    match resolve_with(&r, &doc) {
        Err(ConfigError::ValidationFailure { message }) => {
            assert_eq!(message, "'username' must be specified for machine 'm'.");
        }
        other => panic!("Unexpected: {:?}", other.err()),
    }
}
