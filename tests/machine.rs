use gh_actions_scaler::config::{GithubRunnerConfig, MachineConfig, RunnersConfig, SshConfig};
use gh_actions_scaler::machine::{
    cache_version, command_with_env, env_script_command, list_runners_command,
    pull_image_command, rename_container_command, run_runner_command, runner_container_name,
    parse_runner_line, parse_runners, ContainerState, Machine, StringExt, Timestamp,
    cache_record_path, file_exists_command, make_dir_command, read_file_command,
    record_version_command, failure_report,
};

fn escaped(input: &str) -> String {
    let mut actual = String::new();
    actual.push_str_escaped(input);
    actual
}

#[test]
fn push_str_escaped_cases() {
    assert_eq!(escaped(""), "");
    assert_eq!(escaped("hello"), "hello");
    assert_eq!(escaped("안녕하세요"), "안녕하세요");
    assert_eq!(escaped("Hello, World"), r#""Hello, World""#);
    assert_eq!(escaped("안녕하세요, 여러분!"), r#""안녕하세요, 여러분!""#);
    assert_eq!(escaped(r#""foo"bar"baz""#), r#""\"foo\"bar\"baz\"""#);
    assert_eq!(escaped("'foo'bar'baz'"), r#""'foo'bar'baz'""#);
    assert_eq!(escaped(r"\foo\bar\baz\"), r#""\\foo\\bar\\baz\\""#);
    assert_eq!(escaped(r#""foo" \bar\ 'baz'"#), r#""\"foo\" \\bar\\ 'baz'""#);
}

#[test]
fn push_str_escaped_special_chars() {
    let chars_to_escape = "'|&!;$()[]{}<>#`";
    for char_to_escape in chars_to_escape.chars() {
        let input = format!(
            "{}foo{}bar{}",
            char_to_escape, char_to_escape, char_to_escape
        );
        let expected = format!("\"{}\"", input);
        let mut actual = String::new();
        actual.push_str_escaped(&input);
        assert_eq!(actual, expected);
    }
}

#[test]
fn push_str_escaped_appends() {
    let mut actual = String::from("echo ");
    actual.push_str_escaped("a b");
    assert_eq!(actual, "echo \"a b\"");
}

#[test]
fn container_states() {
    assert_eq!(ContainerState::from("created"), ContainerState::Created);
    assert_eq!(ContainerState::from("restarting"), ContainerState::Restarting);
    assert_eq!(ContainerState::from("running"), ContainerState::Running);
    assert_eq!(ContainerState::from("removing"), ContainerState::Removing);
    assert_eq!(ContainerState::from("paused"), ContainerState::Paused);
    assert_eq!(ContainerState::from("exited"), ContainerState::Exited);
    assert_eq!(ContainerState::from("dead"), ContainerState::Dead);
    assert_eq!(
        ContainerState::from("Running"),
        ContainerState::Unknown("Running".to_string())
    );
}

#[test]
fn cache_versions() {
    assert_eq!(cache_version(0), "0");
    assert_eq!(cache_version(86399), "0");
    assert_eq!(cache_version(86400 * 3 + 5), "3");
    assert_eq!(cache_version(1_732_492_800), "20052");
}

fn sample_machine() -> MachineConfig {
    MachineConfig {
        id: "m".to_string(),
        ssh: SshConfig {
            host: "10.0.0.1".to_string(),
            port: 22,
            fingerprint: String::new(),
            username: "u".to_string(),
            password: String::new(),
            private_key: "key".to_string(),
            private_key_passphrase: "pp".to_string(),
        },
        runners: RunnersConfig { max: 16 },
    }
}

#[test]
fn machine_keeps_its_settings() {
    let config = sample_machine();
    let machine = Machine::new(&config);
    assert!(*machine.settings() == config);
    assert_eq!(machine.ssh().host.as_str(), "10.0.0.1");
    assert_eq!(machine.passphrase_opt(), Some("pp"));
    let mut without = sample_machine();
    without.ssh.private_key_passphrase = String::new();
    assert_eq!(Machine::new(&without).passphrase_opt(), None);
}

#[test]
fn commands() {
    assert_eq!(
        list_runners_command(),
        "docker container ls --all --no-trunc --filter label=github-self-hosted-runner --format {{.ID}} | xargs --no-run-if-empty docker container inspect --format \"{{.ID}}|{{.State.Status}}|{{.Created}}|{{.State.StartedAt}}|{{.State.FinishedAt}}\""
    );
    assert_eq!(
        pull_image_command(),
        "docker image pull ghcr.io/myoung34/docker-github-actions-runner:ubuntu-focal"
    );
    let runners = GithubRunnerConfig {
        name_prefix: "runner".to_string(),
        scope: "repo".to_string(),
        repo_url: "https://github.com/a/b".to_string(),
    };
    assert_eq!(
        run_runner_command(&runners),
        "docker container run --detach --restart no --label github-self-hosted-runner --env ACCESS_TOKEN --env REPO_URL=https://github.com/a/b --env RUNNER_NAME_PREFIX=runner --env RUNNER_SCOPE=repo --env EPHEMERAL=true --env UNSET_CONFIG_VARS=true ghcr.io/myoung34/docker-github-actions-runner:ubuntu-focal"
    );
    assert_eq!(runner_container_name("abc"), "github-self-hosted-runner-abc");
    assert_eq!(
        rename_container_command("abc", "x y"),
        "docker container rename abc \"x y\""
    );
    assert_eq!(
        env_script_command("/tmp/e", &vec![("ACCESS_TOKEN".to_string(), "a b".to_string())]),
        "cat <<======== >/tmp/e\nACCESS_TOKEN=\"a b\"\nexport ACCESS_TOKEN\n========\n"
    );
    assert_eq!(
        command_with_env("/tmp/e", "run"),
        ". /tmp/e && rm /tmp/e && run"
    );
}

#[test]
fn runner_lines_parsed() {
    let line = "abc123|running|2024-11-25T10:00:00.5Z|2024-11-25T10:00:01Z|0001-01-01T00:00:00Z";
    let info = parse_runner_line(line).expect("a runner");
    assert_eq!(info.container_id, "abc123");
    assert_eq!(info.container_state, ContainerState::Running);
    assert_eq!(
        info.created_at,
        Timestamp {
            epoch_seconds: 1_732_528_800,
            nanos: 500_000_000,
            year: 2024
        }
    );
    assert_eq!(
        info.started_at,
        Some(Timestamp {
            epoch_seconds: 1_732_528_801,
            nanos: 0,
            year: 2024
        })
    );
    assert_eq!(info.finished_at, None);
    assert_eq!(parse_runner_line("abc|running|2024-11-25T10:00:00Z"), None);
    assert_eq!(parse_runner_line("abc|running|not a time|x|y"), None);
    let two = format!("{}\n{}", line, line.replace("abc123", "def456"));
    let runners = parse_runners(&two).expect("two runners");
    assert_eq!(runners.len(), 2);
    assert_eq!(runners[1].container_id, "def456");
    assert_eq!(parse_runners(""), Some(vec![]));
    let crlf = format!("{}\r\n{}\r\n", line, line);
    assert_eq!(parse_runners(&crlf).expect("CRLF lines").len(), 2);
    assert_eq!(parse_runners("garbage"), None);
}

#[test]
fn cache_commands() {
    let path = cache_record_path("/home/u/.cache");
    assert_eq!(path, "/home/u/.cache/gh-actions-scaler");
    assert_eq!(file_exists_command(&path), "test -f /home/u/.cache/gh-actions-scaler");
    assert_eq!(make_dir_command("/a b"), "mkdir -p \"/a b\"");
    assert_eq!(read_file_command("/x"), "cat /x");
    assert_eq!(record_version_command("20052", "/x"), "echo 20052 >> /x");
}

#[test]
fn failure_reports() {
    assert_eq!(
        failure_report("10.0.0.1:22", "false", 1, "", ""),
        "[10.0.0.1:22] Failed to execute the command:\n\n    false\n\nExit code: 1"
    );
    assert_eq!(
        failure_report("h", "c", -2, "out1\r\nout2\n", "err"),
        "[h] Failed to execute the command:\n\n    c\n\nExit code: -2\nStandard output:\n\n    out1\n    out2\n\nStandard error:\n\n    err\n"
    );
}
