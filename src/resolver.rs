//! Substitution of `$$`, `${NAME}` and `${file:PATH}` tokens inside one string,
//! against a snapshot of the environment and of the files that the
//! configuration refers to.

use crate::config::{result_view, ConfigError, ErrorView, FileError, VarError};
use crate::text::{chars_of, push_char, push_str, str_eq, string_of};
use vstd::prelude::*;

verus! {

/// The map that a list of entries stands for: a later entry overrides an
/// earlier one with the same key.
pub open spec fn entries_map<V>(s: Seq<(String, V)>) -> Map<Seq<char>, V>
    decreases s.len(),
{
    if s.len() == 0 {
        Map::empty()
    } else {
        entries_map(s.drop_last()).insert(s.last().0@, s.last().1)
    }
}

/// Entries past `i` whose keys differ from `k` do not change what `k` maps to.
proof fn lemma_entries_prefix<V>(s: Seq<(String, V)>, i: int, k: Seq<char>)
    requires
        0 <= i <= s.len(),
        forall|j: int| i <= j < s.len() ==> (#[trigger] s[j]).0@ != k,
    ensures
        entries_map(s).contains_key(k) == entries_map(s.take(i)).contains_key(k),
        entries_map(s).contains_key(k) ==> entries_map(s)[k] == entries_map(s.take(i))[k],
    decreases s.len() - i,
{
    if i == s.len() {
        assert(s.take(i) =~= s);
    } else {
        let t = s.drop_last();
        assert(s.last() == s[s.len() - 1]);
        assert forall|j: int| i <= j < t.len() implies (#[trigger] t[j]).0@ != k by {
            assert(t[j] == s[j]);
        }
        lemma_entries_prefix(t, i, k);
        assert(t.take(i) =~= s.take(i));
    }
}

/// A table from strings to values, filled one entry at a time.
pub struct Lookup<V> {
    entries: Vec<(String, V)>,
}

impl<V> View for Lookup<V> {
    type V = Map<Seq<char>, V>;

    closed spec fn view(&self) -> Map<Seq<char>, V> {
        entries_map(self.entries@)
    }
}

impl<V> Lookup<V> {
    /// An empty table.
    pub fn new() -> (r: Self)
        ensures
            r@ == Map::<Seq<char>, V>::empty(),
    {
        Lookup { entries: Vec::new() }
    }

    /// Maps `key` to `value`, replacing what it mapped to before.
    pub fn insert(&mut self, key: String, value: V)
        ensures
            final(self)@ == old(self)@.insert(key@, value),
    {
        let ghost k = key@;
        self.entries.push((key, value));
        assert(self.entries@.drop_last() =~= old(self).entries@);
    }

    /// What `key` maps to, if anything.
    pub fn get(&self, key: &str) -> (r: Option<&V>)
        ensures
            r matches Some(v) ==> self@.contains_key(key@) && *v == self@[key@],
            r is None ==> !self@.contains_key(key@),
    {
        let mut i: usize = self.entries.len();
        while i > 0
            invariant
                i <= self.entries@.len(),
                forall|j: int| i <= j < self.entries@.len() ==> (#[trigger] self.entries@[j]).0@
                    != key@,
            decreases i,
        {
            i = i - 1;
            if str_eq(self.entries[i].0.as_str(), key) {
                proof {
                    let s = self.entries@;
                    lemma_entries_prefix(s, i + 1, key@);
                    assert(s.take(i + 1).drop_last() =~= s.take(i as int));
                }
                return Some(&self.entries[i].1);
            }
        }
        proof {
            lemma_entries_prefix(self.entries@, 0, key@);
            assert(self.entries@.take(0) =~= Seq::<(String, V)>::empty());
        }
        None
    }
}

/// One unit of a string being resolved: a character that stands for itself,
/// an environment variable, or a file.
pub enum Piece {
    Char(char),
    Env(Seq<char>),
    File(Seq<char>),
}

/// The first position at or after `k` that holds `}`, or the length of `s`.
pub open spec fn first_close(s: Seq<char>, k: int) -> int
    decreases s.len() - k,
{
    if k < 0 || k >= s.len() {
        s.len() as int
    } else if s[k] == '}' {
        k
    } else {
        first_close(s, k + 1)
    }
}

/// Whether the inside of `${...}` names a file: `file:` and at least one
/// more character.
pub open spec fn is_file_body(b: Seq<char>) -> bool {
    &&& b.len() > 5
    &&& b[0] == 'f'
    &&& b[1] == 'i'
    &&& b[2] == 'l'
    &&& b[3] == 'e'
    &&& b[4] == ':'
}

/// The piece that starts at position `i` of `s`, and where the next one starts.
/// `$$` is a literal `$`; `${...}` with a non-empty inside and a closing `}` is
/// a variable; anything else stands for itself.
pub open spec fn piece_at(s: Seq<char>, i: int) -> (Piece, int) {
    if s[i] == '$' && i + 1 < s.len() && s[i + 1] == '$' {
        (Piece::Char('$'), i + 2)
    } else if s[i] == '$' && i + 1 < s.len() && s[i + 1] == '{' && i + 2 < first_close(s, i + 2)
        < s.len() {
        let j = first_close(s, i + 2);
        let body = s.subrange(i + 2, j);
        if is_file_body(body) {
            (Piece::File(body.skip(5)), j + 1)
        } else {
            (Piece::Env(body), j + 1)
        }
    } else {
        (Piece::Char(s[i]), i + 1)
    }
}

/// `rel` taken relative to the directory `dir`; an absolute `rel` stands alone.
pub open spec fn joined_path(dir: Seq<char>, rel: Seq<char>) -> Seq<char> {
    if rel.len() > 0 && rel[0] == '/' {
        rel
    } else if dir.len() == 0 {
        rel
    } else if dir.last() == '/' {
        dir + rel
    } else {
        dir + seq!['/'] + rel
    }
}

/// Whether `c` has the Unicode `White_Space` property, which
/// `char::is_whitespace` tests.
pub open spec fn is_white_space(c: char) -> bool {
    let n = c as int;
    ||| 0x9 <= n <= 0xd
    ||| n == 0x20
    ||| n == 0x85
    ||| n == 0xa0
    ||| n == 0x1680
    ||| 0x2000 <= n <= 0x200a
    ||| n == 0x2028
    ||| n == 0x2029
    ||| n == 0x202f
    ||| n == 0x205f
    ||| n == 0x3000
}

/// The text without its trailing whitespace.
pub open spec fn trimmed_end(s: Seq<char>) -> Seq<char>
    decreases s.len(),
{
    if s.len() > 0 && is_white_space(s.last()) {
        trimmed_end(s.drop_last())
    } else {
        s
    }
}

/// Relies on `str::trim_end`, which removes the trailing characters that
/// `char::is_whitespace` accepts.
#[verifier::external_body]
fn trim_end(s: &str) -> (r: String)
    ensures
        r@ == trimmed_end(s@),
{
    s.trim_end().to_string()
}

/// The value of an environment variable in the snapshot `env`.
pub open spec fn env_value(env: Map<Seq<char>, Result<String, VarError>>, name: Seq<char>) -> Result<
    Seq<char>,
    ErrorView,
> {
    if !env.contains_key(name) {
        Err(ErrorView::Env { name, cause: VarError::NotPresent })
    } else {
        match env[name] {
            Ok(v) => Ok(v@),
            Err(cause) => Err(ErrorView::Env { name, cause }),
        }
    }
}

/// The trimmed contents of the file at `path` in the snapshot `files`.
pub open spec fn file_value(files: Map<Seq<char>, Result<String, FileError>>, path: Seq<char>) -> Result<
    Seq<char>,
    ErrorView,
> {
    if !files.contains_key(path) {
        Err(ErrorView::File { path, cause: FileError::NotFound })
    } else {
        match files[path] {
            Ok(c) => Ok(trimmed_end(c@)),
            Err(cause) => Err(ErrorView::File { path, cause }),
        }
    }
}

/// What a resolver knows: the configuration directory, and the snapshot of
/// environment variables and of file contents keyed by path.
pub struct ResolverView {
    pub dir: Seq<char>,
    pub env: Map<Seq<char>, Result<String, VarError>>,
    pub files: Map<Seq<char>, Result<String, FileError>>,
}

/// Resolves `${...}` and `$$` tokens against a configuration directory and a
/// snapshot of environment variables and file contents.
pub struct ConfigResolver {
    config_dir: String,
    env: Lookup<Result<String, VarError>>,
    files: Lookup<Result<String, FileError>>,
}

/// What a piece resolves to.
pub open spec fn piece_value(r: ResolverView, p: Piece) -> Result<Seq<char>, ErrorView> {
    match p {
        Piece::Char(c) => Ok(seq![c]),
        Piece::Env(name) => env_value(r.env, name),
        Piece::File(rel) => file_value(r.files, joined_path(r.dir, rel)),
    }
}

/// The resolution of `s` from position `i` on: the pieces' values in order,
/// or the error of the first piece that fails.
pub open spec fn resolved_from(r: ResolverView, s: Seq<char>, i: int) -> Result<
    Seq<char>,
    ErrorView,
>
    decreases s.len() - i,
{
    if i < 0 || i >= s.len() {
        Ok(Seq::empty())
    } else {
        let (p, next) = piece_at(s, i);
        match piece_value(r, p) {
            Err(e) => Err(e),
            Ok(v) => match resolved_from(r, s, next) {
                Ok(rest) => Ok(v + rest),
                Err(e) => Err(e),
            },
        }
    }
}

/// The resolution of the whole of `s`.
pub open spec fn resolved(r: ResolverView, s: Seq<char>) -> Result<Seq<char>, ErrorView> {
    resolved_from(r, s, 0)
}

/// What a resolution gives where the input may be empty: the fallback, itself
/// resolved, takes the place of an empty input.
pub open spec fn resolved_or_else(
    r: ResolverView,
    s: Seq<char>,
    fallback: Result<Seq<char>, ErrorView>,
) -> Result<Seq<char>, ErrorView> {
    if s.len() == 0 {
        match fallback {
            Ok(f) => resolved(r, f),
            Err(e) => Err(e),
        }
    } else {
        resolved(r, s)
    }
}

/// Joins `rel` to the directory `dir`.
pub fn join_path(dir: &str, rel: &str) -> (r: String)
    ensures
        r@ == joined_path(dir@, rel@),
{
    let n = dir.unicode_len();
    let m = rel.unicode_len();
    let mut r = String::new();
    if m > 0 && rel.get_char(0) == '/' {
        push_str(&mut r, rel);
        assert(r@ =~= rel@);
        return r;
    }
    if n == 0 {
        push_str(&mut r, rel);
        assert(r@ =~= rel@);
        return r;
    }
    push_str(&mut r, dir);
    if dir.get_char(n - 1) != '/' {
        push_char(&mut r, '/');
    }
    push_str(&mut r, rel);
    assert(r@ =~= joined_path(dir@, rel@));
    r
}

/// The first position at or after `k` that holds `}`, or the length of `cs`.
fn find_close(cs: &Vec<char>, k: usize) -> (j: usize)
    requires
        k <= cs@.len(),
    ensures
        j == first_close(cs@, k as int),
{
    let n = cs.len();
    let mut j = k;
    while j < n && cs[j] != '}'
        invariant
            n == cs@.len(),
            k <= j <= n,
            first_close(cs@, k as int) == first_close(cs@, j as int),
        decreases n - j,
    {
        j = j + 1;
    }
    j
}

impl View for ConfigResolver {
    type V = ResolverView;

    closed spec fn view(&self) -> ResolverView {
        ResolverView { dir: self.config_dir@, env: self.env@, files: self.files@ }
    }
}

impl ConfigResolver {
    /// A resolver for the directory `config_dir` that knows of no variable
    /// and no file yet.
    pub fn new(config_dir: &str) -> (r: Self)
        ensures
            r@.dir == config_dir@,
            r@.env == Map::<Seq<char>, Result<String, VarError>>::empty(),
            r@.files == Map::<Seq<char>, Result<String, FileError>>::empty(),
    {
        let mut d = String::new();
        push_str(&mut d, config_dir);
        assert(d@ =~= config_dir@);
        ConfigResolver { config_dir: d, env: Lookup::new(), files: Lookup::new() }
    }

    /// Records what reading the environment variable `name` gave.
    pub fn set_env(&mut self, name: String, value: Result<String, VarError>)
        ensures
            final(self)@.env == old(self)@.env.insert(name@, value),
            final(self)@.files == old(self)@.files,
            final(self)@.dir == old(self)@.dir,
    {
        self.env.insert(name, value);
    }

    /// Records what reading the file at `path` gave.
    pub fn set_file(&mut self, path: String, content: Result<String, FileError>)
        ensures
            final(self)@.files == old(self)@.files.insert(path@, content),
            final(self)@.env == old(self)@.env,
            final(self)@.dir == old(self)@.dir,
    {
        self.files.insert(path, content);
    }

    /// The path that `${file:rel}` refers to.
    pub fn file_path(&self, rel: &str) -> (r: String)
        ensures
            r@ == joined_path(self@.dir, rel@),
    {
        join_path(self.config_dir.as_str(), rel)
    }

    fn env_var(&self, name: &str) -> (r: Result<String, ConfigError>)
        ensures
            result_view(r) == env_value(self@.env, name@),
    {
        let mut n = String::new();
        push_str(&mut n, name);
        assert(n@ =~= name@);
        match self.env.get(name) {
            None => Err(ConfigError::UnresolvedEnvironmentVariable { name: n, cause: VarError::NotPresent }),
            Some(Ok(v)) => Ok(v.clone()),
            Some(Err(cause)) => Err(ConfigError::UnresolvedEnvironmentVariable { name: n, cause: *cause }),
        }
    }

    fn file_contents(&self, rel: &str) -> (r: Result<String, ConfigError>)
        ensures
            result_view(r) == file_value(self@.files, joined_path(self@.dir, rel@)),
    {
        let path = self.file_path(rel);
        match self.files.get(path.as_str()) {
            None => Err(ConfigError::UnresolvedFileVariable { path, cause: FileError::NotFound }),
            Some(Ok(c)) => Ok(trim_end(c.as_str())),
            Some(Err(cause)) => Err(ConfigError::UnresolvedFileVariable { path, cause: *cause }),
        }
    }

    /// Replaces every token of `input`, left to right: `$$` by `$`, `${NAME}`
    /// by the variable's value, `${file:PATH}` by the file's contents without
    /// trailing whitespace. The first token that cannot be resolved gives the
    /// error, and nothing after it is looked at.
    pub fn resolve(&self, input: &str) -> (r: Result<String, ConfigError>)
        ensures
            result_view(r) == resolved(self@, input@),
    {
        let cs = chars_of(input);
        let n = cs.len();
        let ghost s = input@;
        let mut out = String::new();
        let mut i: usize = 0;
        while i < n
            invariant
                cs@ == s,
                s == input@,
                n == s.len(),
                i <= n,
                resolved(self@, s) == match resolved_from(self@, s, i as int) {
                    Ok(rest) => Ok(out@ + rest),
                    Err(e) => Err(e),
                },
            decreases n - i,
        {
            let ghost (p, next) = piece_at(s, i as int);
            let ghost old_out = out@;
            let ghost mut pv: Seq<char> = Seq::empty();
            let c = cs[i];
            if c == '$' && i + 1 < n && cs[i + 1] == '$' {
                push_char(&mut out, '$');
                proof {
                    pv = seq!['$'];
                }
                i = i + 2;
            } else if c == '$' && i + 1 < n && cs[i + 1] == '{' {
                let j = find_close(&cs, i + 2);
                if i + 2 < j && j < n {
                    let ghost body = s.subrange(i + 2, j as int);
                    if j - (i + 2) > 5 && cs[i + 2] == 'f' && cs[i + 3] == 'i' && cs[i + 4] == 'l'
                        && cs[i + 5] == 'e' && cs[i + 6] == ':' {
                        let rel = string_of(&cs, i + 7, j);
                        assert(rel@ =~= body.skip(5));
                        assert(is_file_body(body));
                        assert(p == Piece::File(rel@));
                        let v = match self.file_contents(rel.as_str()) {
                            Ok(v) => v,
                            Err(e) => {
                                return Err(e);
                            },
                        };
                        push_str(&mut out, v.as_str());
                        proof {
                            pv = v@;
                        }
                    } else {
                        let name = string_of(&cs, i + 2, j);
                        assert(!is_file_body(body));
                        assert(p == Piece::Env(name@));
                        let v = match self.env_var(name.as_str()) {
                            Ok(v) => v,
                            Err(e) => {
                                return Err(e);
                            },
                        };
                        push_str(&mut out, v.as_str());
                        proof {
                            pv = v@;
                        }
                    }
                    i = j + 1;
                } else {
                    push_char(&mut out, '$');
                    proof {
                        pv = seq!['$'];
                    }
                    i = i + 1;
                }
            } else {
                push_char(&mut out, c);
                proof {
                    pv = seq![c];
                }
                i = i + 1;
            }
            proof {
                assert(next == i);
                assert(out@ =~= old_out + pv);
                assert(piece_value(self@, p) == Ok::<Seq<char>, ErrorView>(pv));
                match resolved_from(self@, s, i as int) {
                    Ok(rest) => {
                        assert(old_out + (pv + rest) =~= out@ + rest);
                    },
                    Err(e) => {},
                }
            }
        }
        Ok(out)
    }

    /// Resolves `input`, or, where it is empty, the fallback, which may be an
    /// error that is then returned as it is.
    pub fn resolve_or_else(&self, input: &str, fallback: Result<String, ConfigError>) -> (r: Result<
        String,
        ConfigError,
    >)
        ensures
            result_view(r) == resolved_or_else(self@, input@, result_view(fallback)),
    {
        if input.unicode_len() == 0 {
            match fallback {
                Ok(f) => self.resolve(f.as_str()),
                Err(e) => Err(e),
            }
        } else {
            self.resolve(input)
        }
    }
}

/// A piece ends past where it starts, and within the string.
proof fn lemma_piece_at_next(s: Seq<char>, i: int)
    requires
        0 <= i < s.len(),
    ensures
        i < piece_at(s, i).1 <= s.len(),
{
}

proof fn lemma_first_close_shift(p: Seq<char>, s: Seq<char>, k: int)
    requires
        0 <= k <= s.len(),
    ensures
        first_close(p + s, p.len() + k) == p.len() + first_close(s, k),
    decreases s.len() - k,
{
    if k < s.len() {
        assert((p + s)[p.len() + k] == s[k]);
        if s[k] != '}' {
            lemma_first_close_shift(p, s, k + 1);
        }
    }
}

proof fn lemma_piece_at_shift(p: Seq<char>, s: Seq<char>, i: int)
    requires
        0 <= i < s.len(),
    ensures
        piece_at(p + s, p.len() + i) == (piece_at(s, i).0, p.len() + piece_at(s, i).1),
{
    let t = p + s;
    let n = p.len();
    assert(t[n + i] == s[i]);
    if i + 1 < s.len() {
        assert(t[n + i + 1] == s[i + 1]);
    }
    if i + 2 <= s.len() {
        lemma_first_close_shift(p, s, i + 2);
        let j = first_close(s, i + 2);
        if i + 2 < j < s.len() {
            assert(t.subrange(n + i + 2, n + j) =~= s.subrange(i + 2, j));
        }
    }
}

/// Resolution looks only forward: what stands before a position does not
/// change how the rest is resolved.
proof fn lemma_resolved_from_shift(r: ResolverView, p: Seq<char>, s: Seq<char>, i: int)
    requires
        0 <= i <= s.len(),
    ensures
        resolved_from(r, p + s, p.len() + i) == resolved_from(r, s, i),
    decreases s.len() - i,
{
    if i < s.len() {
        lemma_piece_at_shift(p, s, i);
        lemma_piece_at_next(s, i);
        lemma_resolved_from_shift(r, p, s, piece_at(s, i).1);
    }
}

/// `$$` stands for one literal `$`, whatever follows it: what comes after is
/// resolved as if it stood alone, so `$${NAME}` is never a variable.
pub proof fn lemma_double_dollar(r: ResolverView, s: Seq<char>)
    ensures
        resolved(r, "$$"@ + s) == match resolved(r, s) {
            Ok(v) => Ok(seq!['$'] + v),
            Err(e) => Err(e),
        },
{
    reveal_strlit("$$");
    let t = "$$"@ + s;
    assert(t[0] == '$' && t[1] == '$');
    lemma_resolved_from_shift(r, "$$"@, s, 0);
}

/// Text without `$` resolves to itself.
pub proof fn lemma_plain_text(r: ResolverView, s: Seq<char>)
    requires
        !s.contains('$'),
    ensures
        resolved(r, s) == Ok::<Seq<char>, ErrorView>(s),
{
    lemma_plain_text_from(r, s, 0);
    assert(s.skip(0) =~= s);
}

proof fn lemma_plain_text_from(r: ResolverView, s: Seq<char>, i: int)
    requires
        !s.contains('$'),
        0 <= i <= s.len(),
    ensures
        resolved_from(r, s, i) == Ok::<Seq<char>, ErrorView>(s.skip(i)),
    decreases s.len() - i,
{
    if i < s.len() {
        assert(s[i] != '$');
        lemma_plain_text_from(r, s, i + 1);
        assert(seq![s[i]] + s.skip(i + 1) =~= s.skip(i));
    } else {
        assert(s.skip(i) =~= Seq::<char>::empty());
    }
}

proof fn lemma_first_close_at(s: Seq<char>, k: int, j: int)
    requires
        0 <= k <= j < s.len(),
        s[j] == '}',
        forall|m: int| k <= m < j ==> s[m] != '}',
    ensures
        first_close(s, k) == j,
    decreases j - k,
{
    if k < j {
        lemma_first_close_at(s, k + 1, j);
    }
}

/// `${file:PATH}` with a relative path reads the file at that path inside
/// the configuration directory, whatever the working directory is.
pub proof fn lemma_file_relative_to_config_dir(r: ResolverView, rel: Seq<char>)
    requires
        rel.len() > 0,
        rel[0] != '/',
        !rel.contains('}'),
        r.dir.len() > 0,
        r.dir.last() != '/',
    ensures
        resolved(r, "${file:"@ + rel + "}"@) == file_value(r.files, r.dir + "/"@ + rel),
{
    reveal_strlit("${file:");
    reveal_strlit("}");
    reveal_strlit("/");
    let s = "${file:"@ + rel + "}"@;
    let j = 7 + rel.len() as int;
    assert forall|m: int| 2 <= m < j implies s[m] != '}' by {
        if m >= 7 {
            assert(s[m] == rel[m - 7]);
        }
    }
    lemma_first_close_at(s, 2, j);
    assert(s[0] == '$' && s[1] == '{' && s.len() == j + 1);
    let body = s.subrange(2, j);
    assert(body[0] == 'f' && body[1] == 'i' && body[2] == 'l' && body[3] == 'e' && body[4] == ':');
    assert(is_file_body(body));
    assert(body.skip(5) =~= rel);
    assert(piece_at(s, 0) == (Piece::File(rel), j + 1));
    assert(joined_path(r.dir, rel) =~= r.dir + "/"@ + rel);
    assert(resolved_from(r, s, j + 1) == Ok::<Seq<char>, ErrorView>(Seq::empty()));
    assert(piece_value(r, Piece::File(rel)) == file_value(r.files, r.dir + "/"@ + rel));
    match file_value(r.files, r.dir + "/"@ + rel) {
        Ok(v) => {
            assert(v + Seq::<char>::empty() =~= v);
        },
        Err(e) => {},
    }
}

/// Whether every `$` of `s` from position `i` on belongs to a pair `$$`,
/// pairs taken left to right.
pub open spec fn dollars_paired(s: Seq<char>, i: int) -> bool
    decreases s.len() - i,
{
    if i < 0 || i >= s.len() {
        true
    } else if s[i] == '$' {
        i + 1 < s.len() && s[i + 1] == '$' && dollars_paired(s, i + 2)
    } else {
        dollars_paired(s, i + 1)
    }
}

/// `s` from position `i` on with each pair `$$` written as one `$`.
pub open spec fn pairs_collapsed(s: Seq<char>, i: int) -> Seq<char>
    decreases s.len() - i,
{
    if i < 0 || i >= s.len() {
        Seq::empty()
    } else if s[i] == '$' && i + 1 < s.len() {
        seq!['$'] + pairs_collapsed(s, i + 2)
    } else {
        seq![s[i]] + pairs_collapsed(s, i + 1)
    }
}

proof fn lemma_paired_from(r: ResolverView, s: Seq<char>, i: int)
    requires
        0 <= i <= s.len(),
        dollars_paired(s, i),
    ensures
        resolved_from(r, s, i) == Ok::<Seq<char>, ErrorView>(pairs_collapsed(s, i)),
    decreases s.len() - i,
{
    if i < s.len() {
        if s[i] == '$' {
            lemma_paired_from(r, s, i + 2);
        } else {
            lemma_paired_from(r, s, i + 1);
        }
    }
}

/// Where every `$` is one of a pair `$$`, resolution never fails, whatever
/// the environment and files, and gives the text with each pair written as
/// one `$`: `$$` always stands for a literal `$`.
pub proof fn lemma_paired_dollars(r: ResolverView, s: Seq<char>)
    requires
        dollars_paired(s, 0),
    ensures
        resolved(r, s) == Ok::<Seq<char>, ErrorView>(pairs_collapsed(s, 0)),
{
    lemma_paired_from(r, s, 0);
}

} // verus!
