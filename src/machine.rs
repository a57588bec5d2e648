//! A machine that hosts runners: its settings, and the shell commands that
//! are run on it over SSH.

use crate::config::{GithubRunnerConfig, MachineConfig, SshConfig};
use crate::text::{
    chars_of, decimal, push_char, push_decimal, push_str, split_fields, split_on, str_eq,
    string_from, views,
};
use vstd::prelude::*;

verus! {

/// Whether a character makes a shell word need quoting.
pub open spec fn needs_quoting(c: char) -> bool {
    c == '\'' || c == '"' || c == ' ' || c == '\\' || c == '|' || c == '&' || c == '!' || c == ';'
        || c == '$' || c == '(' || c == ')' || c == '[' || c == ']' || c == '{' || c == '}' || c
        == '<' || c == '>' || c == '#' || c == '`'
}

/// The characters of `s` with `"` and `\` preceded by a backslash.
pub open spec fn backslashed(s: Seq<char>) -> Seq<char>
    decreases s.len(),
{
    if s.len() == 0 {
        Seq::empty()
    } else {
        let c = s.last();
        backslashed(s.drop_last()) + if c == '"' || c == '\\' {
            seq!['\\', c]
        } else {
            seq![c]
        }
    }
}

/// `s` as one shell word: as it is where no character needs quoting, else
/// within double quotes with `"` and `\` escaped.
pub open spec fn shell_word(s: Seq<char>) -> Seq<char> {
    if exists|i: int| 0 <= i < s.len() && needs_quoting(#[trigger] s[i]) {
        seq!['"'] + backslashed(s) + seq!['"']
    } else {
        s
    }
}

fn needs_quoting_char(c: char) -> (r: bool)
    ensures
        r == needs_quoting(c),
{
    c == '\'' || c == '"' || c == ' ' || c == '\\' || c == '|' || c == '&' || c == '!' || c == ';'
        || c == '$' || c == '(' || c == ')' || c == '[' || c == ']' || c == '{' || c == '}' || c
        == '<' || c == '>' || c == '#' || c == '`'
}

/// Appends `s` to `dst` as one shell word.
pub fn push_shell_word(dst: &mut String, s: &str)
    ensures
        final(dst)@ == old(dst)@ + shell_word(s@),
{
    let cs = chars_of(s);
    let n = cs.len();
    let mut i: usize = 0;
    let mut quote = false;
    while i < n && !quote
        invariant
            cs@ == s@,
            n == s@.len(),
            i <= n,
            quote == (exists|j: int| 0 <= j < i && needs_quoting(#[trigger] s@[j])),
        decreases n - i + if quote {
            0int
        } else {
            1int
        },
    {
        if needs_quoting_char(cs[i]) {
            quote = true;
        }
        i = i + 1;
    }
    if !quote {
        push_str(dst, s);
        return;
    }
    let ghost start = dst@;
    push_char(dst, '"');
    let mut i: usize = 0;
    while i < n
        invariant
            cs@ == s@,
            n == s@.len(),
            i <= n,
            dst@ == start + seq!['"'] + backslashed(s@.take(i as int)),
        decreases n - i,
    {
        let c = cs[i];
        if c == '"' || c == '\\' {
            push_char(dst, '\\');
        }
        push_char(dst, c);
        proof {
            assert(s@.take(i + 1).drop_last() =~= s@.take(i as int));
            assert(s@.take(i + 1).last() == c);
        }
        i = i + 1;
        proof {
            assert(dst@ =~= start + seq!['"'] + backslashed(s@.take(i as int)));
        }
    }
    push_char(dst, '"');
    proof {
        assert(s@.take(n as int) =~= s@);
        assert(dst@ =~= start + shell_word(s@));
    }
}

/// Appending text to a string as one shell word.
pub trait StringExt {
    /// The characters held.
    spec fn text(&self) -> Seq<char>;

    /// Appends `s` as one shell word: as it is, or double-quoted with `"` and
    /// `\` escaped where it holds a character that the shell treats specially.
    fn push_str_escaped(&mut self, s: &str)
        ensures
            final(self).text() == old(self).text() + shell_word(s@),
    ;
}

impl StringExt for String {
    open spec fn text(&self) -> Seq<char> {
        self@
    }

    fn push_str_escaped(&mut self, s: &str) {
        push_shell_word(self, s);
    }
}

/// The state of a runner's container, as Docker reports it.
#[derive(Debug, PartialEq, Eq)]
pub enum ContainerState {
    Created,
    Restarting,
    Running,
    Removing,
    Paused,
    Exited,
    Dead,
    Unknown(String),
}

/// Whether `st` is the state that Docker's status word `w` names; any other
/// word names an unknown state that keeps it.
pub open spec fn state_named(w: Seq<char>, st: ContainerState) -> bool {
    if w == "created"@ {
        st is Created
    } else if w == "restarting"@ {
        st is Restarting
    } else if w == "running"@ {
        st is Running
    } else if w == "removing"@ {
        st is Removing
    } else if w == "paused"@ {
        st is Paused
    } else if w == "exited"@ {
        st is Exited
    } else if w == "dead"@ {
        st is Dead
    } else {
        st matches ContainerState::Unknown(s) && s@ == w
    }
}

impl ContainerState {
    /// The state that Docker's status word names; any other word is kept as
    /// an unknown state.
    pub fn from(value: &str) -> (r: ContainerState)
        ensures
            state_named(value@, r),
    {
        proof {
            reveal_strlit("created");
            reveal_strlit("restarting");
            reveal_strlit("running");
            reveal_strlit("removing");
            reveal_strlit("paused");
            reveal_strlit("exited");
            reveal_strlit("dead");
            assert("created"@.len() == 7 && "created"@[0] == 'c');
            assert("restarting"@.len() == 10);
            assert("running"@.len() == 7 && "running"@[0] == 'r');
            assert("removing"@.len() == 8);
            assert("paused"@.len() == 6 && "paused"@[0] == 'p');
            assert("exited"@.len() == 6 && "exited"@[0] == 'e');
            assert("dead"@.len() == 4);
        }
        if str_eq(value, "created") {
            ContainerState::Created
        } else if str_eq(value, "restarting") {
            ContainerState::Restarting
        } else if str_eq(value, "running") {
            ContainerState::Running
        } else if str_eq(value, "removing") {
            ContainerState::Removing
        } else if str_eq(value, "paused") {
            ContainerState::Paused
        } else if str_eq(value, "exited") {
            ContainerState::Exited
        } else if str_eq(value, "dead") {
            ContainerState::Dead
        } else {
            ContainerState::Unknown(string_from(value))
        }
    }
}

/// The container image that runners run.
pub const IMAGE: &'static str = "ghcr.io/myoung34/docker-github-actions-runner:ubuntu-focal";

/// The label that marks runner containers.
pub const RUNNER_LABEL: &'static str = "github-self-hosted-runner";

/// The name of the file, in the machine's cache directory, that records when
/// the image was last pulled.
pub const CACHE_FILE_NAME: &'static str = "gh-actions-scaler";

/// The version of the image cache for a moment given in seconds since the
/// Unix epoch: the number of whole days since then, in decimal.
pub fn cache_version(epoch_seconds: u64) -> (r: String)
    ensures
        r@ == decimal((epoch_seconds / 86400) as nat),
{
    let seconds_a_day: u64 = 86400;
    let mut r = String::new();
    push_decimal(&mut r, epoch_seconds / seconds_a_day);
    assert(r@ =~= decimal((epoch_seconds / 86400) as nat));
    r
}

/// The command that prints the machine's cache directory.
pub const CACHE_DIR_COMMAND: &'static str = "echo ${XDG_CACHE_HOME:-$HOME/.cache}";

/// The path of the image cache record inside the cache directory `dir`.
pub fn cache_record_path(dir: &str) -> (r: String)
    ensures
        r@ == dir@ + "/"@ + CACHE_FILE_NAME@,
{
    let mut path = string_from(dir);
    push_str(&mut path, "/");
    push_str(&mut path, CACHE_FILE_NAME);
    path
}

/// The command that succeeds only where a file exists at `path`.
pub fn file_exists_command(path: &str) -> (r: String)
    ensures
        r@ == "test -f "@ + shell_word(path@),
{
    let mut cmd = string_from("test -f ");
    push_shell_word(&mut cmd, path);
    cmd
}

/// The command that creates the directory `dir` and its parents.
pub fn make_dir_command(dir: &str) -> (r: String)
    ensures
        r@ == "mkdir -p "@ + shell_word(dir@),
{
    let mut cmd = string_from("mkdir -p ");
    push_shell_word(&mut cmd, dir);
    cmd
}

/// The command that prints the file at `path`.
pub fn read_file_command(path: &str) -> (r: String)
    ensures
        r@ == "cat "@ + shell_word(path@),
{
    let mut cmd = string_from("cat ");
    push_shell_word(&mut cmd, path);
    cmd
}

/// The command that appends the cache version `version` to the record at `path`.
pub fn record_version_command(version: &str, path: &str) -> (r: String)
    ensures
        r@ == "echo "@ + shell_word(version@) + " >> "@ + shell_word(path@),
{
    let mut cmd = string_from("echo ");
    push_shell_word(&mut cmd, version);
    push_str(&mut cmd, " >> ");
    push_shell_word(&mut cmd, path);
    cmd
}

/// The command that lists every runner container with its state and times,
/// one `ID|status|created|started|finished` line each.
pub fn list_runners_command() -> (r: String)
    ensures
        r@ == "docker container ls --all --no-trunc --filter "@ + shell_word(
            "label=github-self-hosted-runner"@,
        ) + " --format {{.ID}} | xargs --no-run-if-empty docker container inspect --format "@
            + shell_word(
            "{{.ID}}|{{.State.Status}}|{{.Created}}|{{.State.StartedAt}}|{{.State.FinishedAt}}"@,
        ),
{
    let mut cmd = string_from("docker container ls --all --no-trunc --filter ");
    push_shell_word(&mut cmd, "label=github-self-hosted-runner");
    push_str(
        &mut cmd,
        " --format {{.ID}} | xargs --no-run-if-empty docker container inspect --format ",
    );
    push_shell_word(
        &mut cmd,
        "{{.ID}}|{{.State.Status}}|{{.Created}}|{{.State.StartedAt}}|{{.State.FinishedAt}}",
    );
    cmd
}

/// The command that pulls the runner image.
pub fn pull_image_command() -> (r: String)
    ensures
        r@ == "docker image pull "@ + shell_word(IMAGE@),
{
    let mut cmd = string_from("docker image pull ");
    push_shell_word(&mut cmd, IMAGE);
    cmd
}

/// The command that starts a new ephemeral runner container for the given
/// repository; the access token comes from the `ACCESS_TOKEN` variable of
/// the remote shell.
pub fn run_runner_command(runners: &GithubRunnerConfig) -> (r: String)
    ensures
        r@ == "docker container run --detach --restart no --label "@ + shell_word(RUNNER_LABEL@)
            + " --env ACCESS_TOKEN --env REPO_URL="@ + shell_word(runners.repo_url@)
            + " --env RUNNER_NAME_PREFIX="@ + shell_word(runners.name_prefix@)
            + " --env RUNNER_SCOPE="@ + shell_word(runners.scope@)
            + " --env EPHEMERAL=true --env UNSET_CONFIG_VARS=true "@ + shell_word(IMAGE@),
{
    let mut cmd = string_from("docker container run --detach --restart no --label ");
    push_shell_word(&mut cmd, RUNNER_LABEL);
    push_str(&mut cmd, " --env ACCESS_TOKEN --env REPO_URL=");
    push_shell_word(&mut cmd, runners.repo_url.as_str());
    push_str(&mut cmd, " --env RUNNER_NAME_PREFIX=");
    push_shell_word(&mut cmd, runners.name_prefix.as_str());
    push_str(&mut cmd, " --env RUNNER_SCOPE=");
    push_shell_word(&mut cmd, runners.scope.as_str());
    push_str(&mut cmd, " --env EPHEMERAL=true --env UNSET_CONFIG_VARS=true ");
    push_shell_word(&mut cmd, IMAGE);
    cmd
}

/// The name a started runner container is given.
pub fn runner_container_name(container_id: &str) -> (r: String)
    ensures
        r@ == "github-self-hosted-runner-"@ + container_id@,
{
    let mut name = string_from("github-self-hosted-runner-");
    push_str(&mut name, container_id);
    name
}

/// The command that renames a container.
pub fn rename_container_command(container_id: &str, name: &str) -> (r: String)
    ensures
        r@ == "docker container rename "@ + container_id@ + " "@ + shell_word(name@),
{
    let mut cmd = string_from("docker container rename ");
    push_str(&mut cmd, container_id);
    push_str(&mut cmd, " ");
    push_shell_word(&mut cmd, name);
    cmd
}

/// The lines of a script that sets and exports each variable.
pub open spec fn env_script_lines(env: Seq<(String, String)>) -> Seq<char>
    decreases env.len(),
{
    if env.len() == 0 {
        Seq::empty()
    } else {
        let (k, v) = env.last();
        env_script_lines(env.drop_last()) + shell_word(k@) + "="@ + shell_word(v@) + "\nexport "@
            + shell_word(k@) + "\n"@
    }
}

/// The command that writes a script of variables to `path`.
pub fn env_script_command(path: &str, env: &Vec<(String, String)>) -> (r: String)
    ensures
        r@ == "cat <<======== >"@ + shell_word(path@) + "\n"@ + env_script_lines(env@)
            + "========\n"@,
{
    let mut cmd = string_from("cat <<======== >");
    push_shell_word(&mut cmd, path);
    push_str(&mut cmd, "\n");
    let ghost head = cmd@;
    let mut i: usize = 0;
    while i < env.len()
        invariant
            i <= env@.len(),
            cmd@ == head + env_script_lines(env@.take(i as int)),
        decreases env@.len() - i,
    {
        let (k, v) = &env[i];
        push_shell_word(&mut cmd, k.as_str());
        push_str(&mut cmd, "=");
        push_shell_word(&mut cmd, v.as_str());
        push_str(&mut cmd, "\nexport ");
        push_shell_word(&mut cmd, k.as_str());
        push_str(&mut cmd, "\n");
        proof {
            assert(env@.take(i + 1).drop_last() =~= env@.take(i as int));
            assert(env@.take(i + 1).last() == env@[i as int]);
        }
        i = i + 1;
        proof {
            assert(cmd@ =~= head + env_script_lines(env@.take(i as int)));
        }
    }
    push_str(&mut cmd, "========\n");
    proof {
        assert(env@.take(env@.len() as int) =~= env@);
    }
    cmd
}

/// `command` run after sourcing, then removing, the script at `script_path`.
pub fn command_with_env(script_path: &str, command: &str) -> (r: String)
    ensures
        r@ == ". "@ + shell_word(script_path@) + " && rm "@ + shell_word(script_path@) + " && "@
            + command@,
{
    let mut cmd = string_from(". ");
    push_shell_word(&mut cmd, script_path);
    push_str(&mut cmd, " && rm ");
    push_shell_word(&mut cmd, script_path);
    push_str(&mut cmd, " && ");
    push_str(&mut cmd, command);
    cmd
}

/// A machine that hosts runners.
pub struct Machine {
    config: MachineConfig,
}

impl Machine {
    /// A machine with the given settings.
    pub fn new(config: &MachineConfig) -> (r: Self)
        ensures
            r.config() == *config,
    {
        Machine { config: config.clone() }
    }

    /// The machine's settings.
    pub closed spec fn config(&self) -> MachineConfig {
        self.config
    }

    /// The machine's settings.
    pub fn settings(&self) -> (r: &MachineConfig)
        ensures
            *r == self.config(),
    {
        &self.config
    }

    /// The SSH settings of the machine.
    pub fn ssh(&self) -> (r: &SshConfig)
        ensures
            *r == self.config().ssh,
    {
        &self.config.ssh
    }

    /// The passphrase of the private key, if one is set.
    pub fn passphrase_opt(&self) -> (r: Option<&str>)
        ensures
            self.config().ssh.private_key_passphrase@.len() == 0 ==> r is None,
            self.config().ssh.private_key_passphrase@.len() > 0 ==> (r matches Some(p) && p@
                == self.config().ssh.private_key_passphrase@),
    {
        let passphrase = self.config.ssh.private_key_passphrase.as_str();
        if passphrase.is_empty() {
            None
        } else {
            Some(passphrase)
        }
    }
}

/// A moment in UTC: seconds since the Unix epoch, nanoseconds past that
/// second, and the calendar year.
#[derive(Clone, Copy, Debug, PartialEq, Eq, Structural)]
pub struct Timestamp {
    pub epoch_seconds: i64,
    pub nanos: u32,
    pub year: i32,
}

/// What `chrono::DateTime::parse_from_rfc3339` reads from a text, taken to
/// UTC: seconds since the epoch, nanoseconds, year; nothing for a text that
/// is not RFC 3339.
pub uninterp spec fn rfc3339_moment(s: Seq<char>) -> Option<(i64, u32, i32)>;

/// The moment that an RFC 3339 text names, if it names one.
pub open spec fn moment(s: Seq<char>) -> Option<Timestamp> {
    match rfc3339_moment(s) {
        Some((epoch_seconds, nanos, year)) => Some(Timestamp { epoch_seconds, nanos, year }),
        None => None,
    }
}

/// Relies on `chrono::DateTime::parse_from_rfc3339`, then `to_utc`, and the
/// result's `timestamp`, `timestamp_subsec_nanos` and `year`.
#[verifier::external_body]
fn parse_rfc3339(text: &str) -> (r: Option<Timestamp>)
    ensures
        match rfc3339_moment(text@) {
            Some((epoch_seconds, nanos, year)) => r == Some(
                Timestamp { epoch_seconds, nanos, year },
            ),
            None => r is None,
        },
{
    match chrono::DateTime::parse_from_rfc3339(text) {
        Ok(t) => {
            let u = t.to_utc();
            Some(
                Timestamp {
                    epoch_seconds: u.timestamp(),
                    nanos: u.timestamp_subsec_nanos(),
                    year: chrono::Datelike::year(&u),
                },
            )
        },
        Err(_) => None,
    }
}

/// Docker reports an event that has not happened at a time in year 1; a
/// moment up to 1970 counts as none.
pub open spec fn happened(t: Timestamp) -> Option<Timestamp> {
    if t.year > 1970 {
        Some(t)
    } else {
        None
    }
}

/// One runner container, as Docker reports it.
#[derive(Debug, PartialEq, Eq)]
pub struct RunnerInfo {
    pub container_id: String,
    pub container_state: ContainerState,
    pub created_at: Timestamp,
    pub started_at: Option<Timestamp>,
    pub finished_at: Option<Timestamp>,
}

/// Whether a line of the runner listing reads as `info`, or, for `None`,
/// reads as no runner: its first five `|`-separated fields are the container
/// ID, the status word and three RFC 3339 times.
pub open spec fn runner_read(line: Seq<char>, info: Option<RunnerInfo>) -> bool {
    let f = split_fields(line, '|');
    if f.len() >= 5 && moment(f[2]) is Some && moment(f[3]) is Some && moment(f[4]) is Some {
        info matches Some(i) && i.container_id@ == f[0] && state_named(f[1], i.container_state)
            && Some(i.created_at) == moment(f[2]) && i.started_at == happened(moment(f[3])->0)
            && i.finished_at == happened(moment(f[4])->0)
    } else {
        info is None
    }
}

fn parse_time_opt(text: &str) -> (r: Option<Option<Timestamp>>)
    ensures
        r == match moment(text@) {
            Some(t) => Some(happened(t)),
            None => None,
        },
{
    match parse_rfc3339(text) {
        Some(t) => if t.year > 1970 {
            Some(Some(t))
        } else {
            Some(None)
        },
        None => None,
    }
}

/// Reads one line of the runner listing.
pub fn parse_runner_line(line: &str) -> (r: Option<RunnerInfo>)
    ensures
        runner_read(line@, r),
{
    let fields = split_on(line, '|');
    if fields.len() < 5 {
        return None;
    }
    let ghost f = split_fields(line@, '|');
    assert(fields@[2]@ == f[2] && fields@[3]@ == f[3] && fields@[4]@ == f[4]);
    let created_at = match parse_rfc3339(fields[2].as_str()) {
        Some(t) => t,
        None => {
            return None;
        },
    };
    let started_at = match parse_time_opt(fields[3].as_str()) {
        Some(t) => t,
        None => {
            return None;
        },
    };
    let finished_at = match parse_time_opt(fields[4].as_str()) {
        Some(t) => t,
        None => {
            return None;
        },
    };
    assert(fields@[0]@ == f[0] && fields@[1]@ == f[1]);
    Some(
        RunnerInfo {
            container_id: fields[0].clone(),
            container_state: ContainerState::from(fields[1].as_str()),
            created_at,
            started_at,
            finished_at,
        },
    )
}

/// Reads the runner listing, one runner a line (as `str::lines` splits it); `None` where a line does not
/// read as a runner.
pub fn parse_runners(output: &str) -> (r: Option<Vec<RunnerInfo>>)
    ensures
        match r {
            Some(v) => v@.len() == lines_of(output@).len() && forall|i: int|
                0 <= i < v@.len() ==> runner_read(
                    #[trigger] lines_of(output@)[i],
                    Some(v@[i]),
                ),
            None => exists|i: int|
                0 <= i < lines_of(output@).len() && runner_read(
                    #[trigger] lines_of(output@)[i],
                    None,
                ),
        },
{
    let mut res: Vec<RunnerInfo> = Vec::new();
    let lines = lines(output);
    let ghost ls = lines_of(output@);
    assert(ls == crate::text::views(lines@));
    let mut i: usize = 0;
    while i < lines.len()
        invariant
            ls == crate::text::views(lines@),
            ls == lines_of(output@),
            i <= lines@.len(),
            res@.len() == i,
            forall|j: int| 0 <= j < i ==> runner_read(#[trigger] ls[j], Some(res@[j])),
        decreases lines@.len() - i,
    {
        assert(ls[i as int] == lines@[i as int]@);
        match parse_runner_line(lines[i].as_str()) {
            Some(info) => {
                res.push(info);
            },
            None => {
                return None;
            },
        }
        i = i + 1;
    }
    Some(res)
}

/// A line without the carriage return that may end it.
pub open spec fn without_cr(l: Seq<char>) -> Seq<char> {
    if l.len() > 0 && l.last() == '\r' {
        l.drop_last()
    } else {
        l
    }
}

/// The lines of a text, as `str::lines` gives them: split at `\n`, without a
/// trailing `\r`, and no empty line after a final `\n`.
pub open spec fn lines_of(t: Seq<char>) -> Seq<Seq<char>> {
    let f = split_fields(t, '\n');
    let kept = if f.last().len() == 0 {
        f.drop_last()
    } else {
        f
    };
    kept.map_values(|l: Seq<char>| without_cr(l))
}

/// Each line indented by four spaces and ended by `\n`.
pub open spec fn indented(ls: Seq<Seq<char>>) -> Seq<char>
    decreases ls.len(),
{
    if ls.len() == 0 {
        Seq::empty()
    } else {
        indented(ls.drop_last()) + "    "@ + ls.last() + "\n"@
    }
}

/// A section of a failure report for one output stream; nothing where the
/// stream printed nothing.
pub open spec fn report_section(title: Seq<char>, text: Seq<char>) -> Seq<char> {
    if text.len() == 0 {
        Seq::empty()
    } else {
        "\n"@ + title + ":\n\n"@ + indented(lines_of(text))
    }
}

/// The decimal representation of an integer, with a minus sign where negative.
pub open spec fn signed_decimal(n: int) -> Seq<char> {
    if n < 0 {
        seq!['-'] + decimal((-n) as nat)
    } else {
        decimal(n as nat)
    }
}

/// The lines of `text`, as `str::lines` gives them.
pub fn lines(text: &str) -> (r: Vec<String>)
    ensures
        views(r@) == lines_of(text@),
{
    let f = split_on(text, '\n');
    proof {
        crate::text::lemma_split_fields_nonempty(text@, '\n');
    }
    let ghost fs = split_fields(text@, '\n');
    let n = if f[f.len() - 1].as_str().is_empty() {
        f.len() - 1
    } else {
        f.len()
    };
    let ghost kept = if fs.last().len() == 0 {
        fs.drop_last()
    } else {
        fs
    };
    assert(kept.len() == n);
    let mut out: Vec<String> = Vec::new();
    let mut i: usize = 0;
    while i < n
        invariant
            views(f@) == fs,
            n == kept.len(),
            n <= f@.len(),
            forall|j: int| 0 <= j < n ==> kept[j] == fs[j],
            i <= n,
            out@.len() == i,
            forall|j: int| 0 <= j < i ==> (#[trigger] out@[j])@ == without_cr(kept[j]),
        decreases n - i,
    {
        let cs = chars_of(f[i].as_str());
        let len = cs.len();
        let end = if len > 0 && cs[len - 1] == '\r' {
            len - 1
        } else {
            len
        };
        let trimmed = crate::text::string_of(&cs, 0, end);
        assert(f@[i as int]@ == fs[i as int]);
        assert(trimmed@ =~= without_cr(kept[i as int]));
        out.push(trimmed);
        i = i + 1;
    }
    assert(views(out@) =~= lines_of(text@));
    out
}

fn push_indented_lines(dst: &mut String, text: &str)
    ensures
        final(dst)@ == old(dst)@ + indented(lines_of(text@)),
{
    let ls = lines(text);
    let ghost lv = lines_of(text@);
    let ghost start = dst@;
    let mut i: usize = 0;
    while i < ls.len()
        invariant
            views(ls@) == lv,
            i <= ls@.len(),
            dst@ == start + indented(lv.take(i as int)),
        decreases ls@.len() - i,
    {
        push_str(dst, "    ");
        push_str(dst, ls[i].as_str());
        push_str(dst, "\n");
        proof {
            assert(lv.take(i + 1).drop_last() =~= lv.take(i as int));
            assert(lv.take(i + 1).last() == ls@[i as int]@);
        }
        i = i + 1;
        proof {
            assert(dst@ =~= start + indented(lv.take(i as int)));
        }
    }
    proof {
        assert(lv.take(ls@.len() as int) =~= lv);
    }
}

/// The report of a command that exited with a failure code: where it ran,
/// the command, the exit code, then what it printed on each stream.
pub fn failure_report(
    address: &str,
    command: &str,
    exit_code: i32,
    stdout: &str,
    stderr: &str,
) -> (r: String)
    ensures
        r@ == "["@ + address@ + "] Failed to execute the command:\n\n    "@ + command@
            + "\n\nExit code: "@ + signed_decimal(exit_code as int) + report_section(
            "Standard output"@,
            stdout@,
        ) + report_section("Standard error"@, stderr@),
{
    let mut report = string_from("[");
    push_str(&mut report, address);
    push_str(&mut report, "] Failed to execute the command:\n\n    ");
    push_str(&mut report, command);
    push_str(&mut report, "\n\nExit code: ");
    if exit_code < 0 {
        push_char(&mut report, '-');
        push_decimal(&mut report, (-(exit_code as i64)) as u64);
    } else {
        push_decimal(&mut report, exit_code as u64);
    }
    assert(report@ =~= "["@ + address@ + "] Failed to execute the command:\n\n    "@ + command@
        + "\n\nExit code: "@ + signed_decimal(exit_code as int));
    let ghost head = report@;
    if !stdout.is_empty() {
        push_str(&mut report, "\n");
        push_str(&mut report, "Standard output");
        push_str(&mut report, ":\n\n");
        push_indented_lines(&mut report, stdout);
    }
    assert(report@ =~= head + report_section("Standard output"@, stdout@));
    let ghost middle = report@;
    if !stderr.is_empty() {
        push_str(&mut report, "\n");
        push_str(&mut report, "Standard error");
        push_str(&mut report, ":\n\n");
        push_indented_lines(&mut report, stderr);
    }
    assert(report@ =~= middle + report_section("Standard error"@, stderr@));
    report
}

} // verus!
