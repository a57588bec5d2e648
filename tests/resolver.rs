use gh_actions_scaler::config::{ConfigError, FileError, VarError};
use gh_actions_scaler::resolver::{join_path, ConfigResolver};

fn resolver() -> ConfigResolver {
    let mut r = ConfigResolver::new("conf/dir");
    r.set_env("FOO".to_string(), Ok("foo-value".to_string()));
    r.set_env("EMPTY".to_string(), Ok(String::new()));
    r.set_file("conf/dir/secret".to_string(), Ok("s3cret \n\t".to_string()));
    r.set_file("/etc/abs".to_string(), Ok("absolute".to_string()));
    r
}

fn ok(r: &ConfigResolver, input: &str) -> String {
    r.resolve(input).unwrap_or_else(|e| panic!("{:?}", e))
}

#[test]
fn plain_text_is_unchanged() {
    assert_eq!(ok(&resolver(), "hello world"), "hello world");
    assert_eq!(ok(&resolver(), ""), "");
}

#[test]
fn env_variable_substituted() {
    assert_eq!(ok(&resolver(), "a-${FOO}-b"), "a-foo-value-b");
    assert_eq!(ok(&resolver(), "${FOO}${FOO}"), "foo-valuefoo-value");
    assert_eq!(ok(&resolver(), "[${EMPTY}]"), "[]");
}

#[test]
fn double_dollar_is_literal() {
    assert_eq!(ok(&resolver(), "$${FOO}"), "${FOO}");
    assert_eq!(ok(&resolver(), "a$$b"), "a$b");
    assert_eq!(ok(&resolver(), "$$$${FOO}"), "$${FOO}");
    assert_eq!(ok(&resolver(), "$$${FOO}"), "$foo-value");
    assert_eq!(ConfigResolver::new(".").resolve("$$$$").unwrap(), "$$");
}

#[test]
fn unterminated_token_is_text() {
    assert_eq!(ok(&resolver(), "${FOO"), "${FOO");
    assert_eq!(ok(&resolver(), "${}"), "${}");
    assert_eq!(ok(&resolver(), "cost: $5"), "cost: $5");
    assert_eq!(ok(&resolver(), "$"), "$");
}

#[test]
fn file_relative_to_config_dir() {
    assert_eq!(ok(&resolver(), "${file:secret}"), "s3cret");
    assert_eq!(ok(&resolver(), "${file:/etc/abs}"), "absolute");
}

#[test]
fn file_prefix_alone_is_a_variable_name() {
    match resolver().resolve("${file:}") {
        Err(ConfigError::UnresolvedEnvironmentVariable { name, cause }) => {
            assert_eq!(name, "file:");
            assert_eq!(cause, VarError::NotPresent);
        }
        other => panic!("Unexpected: {:?}", other),
    }
}

#[test]
fn first_failure_wins() {
    match resolver().resolve("${MISSING_ONE}${file:missing}") {
        Err(ConfigError::UnresolvedEnvironmentVariable { name, .. }) => {
            assert_eq!(name, "MISSING_ONE");
        }
        other => panic!("Unexpected: {:?}", other),
    }
    match resolver().resolve("${file:missing}${MISSING_ONE}") {
        Err(ConfigError::UnresolvedFileVariable { path, cause }) => {
            assert_eq!(path, "conf/dir/missing");
            assert_eq!(cause, FileError::NotFound);
        }
        other => panic!("Unexpected: {:?}", other),
    }
}

#[test]
fn fallback_used_for_empty_input() {
    let r = resolver();
    assert_eq!(r.resolve_or_else("", Ok("${FOO}".to_string())).unwrap(), "foo-value");
    assert_eq!(r.resolve_or_else("x${FOO}", Ok("y".to_string())).unwrap(), "xfoo-value");
    let err = r
        .resolve_or_else(
            "",
            Err(ConfigError::ValidationFailure {
                message: "none".to_string(),
            }),
        )
        .unwrap_err();
    assert!(matches!(err, ConfigError::ValidationFailure { message } if message == "none"));
}

#[test]
fn paths_joined() {
    assert_eq!(join_path("a/b", "c"), "a/b/c");
    assert_eq!(join_path("a/b/", "c"), "a/b/c");
    assert_eq!(join_path("a", "/c"), "/c");
    assert_eq!(join_path("", "c"), "c");
    assert_eq!(join_path(".", "c"), "./c");
    assert_eq!(resolver().file_path("x"), "conf/dir/x");
}

#[test]
fn later_entry_replaces_earlier() {
    let mut r = ConfigResolver::new(".");
    r.set_env("A".to_string(), Ok("1".to_string()));
    r.set_env("A".to_string(), Ok("2".to_string()));
    assert_eq!(r.resolve("${A}").unwrap(), "2");
}
