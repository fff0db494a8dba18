//! Service configuration, read from the process environment.
use vstd::prelude::*;

use crate::text::{
    chars_of, copy_str, is_ascii_digit, is_empty_text, same_text, split_char, split_on,
    string_views, to_ascii_lowercase, trim, trim_text,
};

verus! {

/// The process environment: its variables whose names and values are
/// valid Unicode, as name/value pairs.
pub struct Environment {
    pub vars: Vec<(String, String)>,
}

pub struct Config {
    pub data_dir: String,
    pub auth: Option<AuthConfig>,
    pub workspace: WorkspaceConfig,
}

pub struct WorkspaceConfig {
    pub image: String,
    pub port_start: u16,
    pub port_end: u16,
    pub code_server_auth: Option<String>,
    pub code_server_password: Option<String>,
    pub github_authentication_mode: Option<String>,
    pub github_token: Option<String>,
    pub shared_data: WorkspaceSharedData,
    pub shared_files: Vec<String>,
    pub shared_excludes: Vec<String>,
}

/// Which workspaces share code-server user data.
#[derive(Clone, Copy, PartialEq, Eq, Structural, Debug)]
pub enum WorkspaceSharedData {
    Unshared,
    User,
    Global,
}

pub struct AuthConfig {
    pub public_url: Option<String>,
    pub client_id: String,
    pub client_secret: String,
}

// ---------------------------------------------------------------------------
// Specifications
// ---------------------------------------------------------------------------
/// The value of the first variable named `name`.
pub open spec fn env_lookup(vars: Seq<(String, String)>, name: Seq<char>) -> Option<Seq<char>>
    decreases vars.len(),
{
    if vars.len() == 0 {
        None
    } else if vars[0].0@ == name {
        Some(vars[0].1@)
    } else {
        env_lookup(vars.drop_first(), name)
    }
}

/// `read_non_empty(name)`: the variable's value, unless it is blank.
pub open spec fn non_empty_var(env: Environment, name: Seq<char>) -> Option<Seq<char>> {
    match env_lookup(env.vars@, name) {
        Some(v) => if trim(v).len() > 0 {
            Some(v)
        } else {
            None
        },
        None => None,
    }
}

pub open spec fn all_digits(s: Seq<char>) -> bool {
    forall|i: int| 0 <= i < s.len() ==> is_ascii_digit(#[trigger] s[i])
}

/// The number that a run of decimal digits denotes.
pub open spec fn digits_value(s: Seq<char>) -> int
    decreases s.len(),
{
    if s.len() == 0 {
        0
    } else {
        digits_value(s.drop_last()) * 10 + (s.last() as int - '0' as int)
    }
}

/// `u16::from_str`: an optional `+`, then at least one ASCII digit, for a
/// value of at most 65535.
pub open spec fn parse_u16_spec(s: Seq<char>) -> Option<u16> {
    let d = if s.len() > 0 && s[0] == '+' {
        s.drop_first()
    } else {
        s
    };
    if d.len() > 0 && all_digits(d) && digits_value(d) <= 65535 {
        Some(digits_value(d) as u16)
    } else {
        None
    }
}

/// `read_u16(name)`.
pub open spec fn u16_var(env: Environment, name: Seq<char>) -> Option<u16> {
    match non_empty_var(env, name) {
        Some(v) => parse_u16_spec(v),
        None => None,
    }
}

/// The trimmed pieces of a list that are not empty, in order.
pub open spec fn non_empty_trimmed(pieces: Seq<Seq<char>>) -> Seq<Seq<char>>
    decreases pieces.len(),
{
    if pieces.len() == 0 {
        Seq::empty()
    } else {
        let rest = non_empty_trimmed(pieces.drop_last());
        if trim(pieces.last()).len() > 0 {
            rest.push(trim(pieces.last()))
        } else {
            rest
        }
    }
}

/// `read_path_list(name)`: the comma-separated entries of the variable,
/// trimmed, without the empty ones.
pub open spec fn path_list_var(env: Environment, name: Seq<char>) -> Seq<Seq<char>> {
    match non_empty_var(env, name) {
        Some(v) => non_empty_trimmed(split_on(v, ',')),
        None => Seq::empty(),
    }
}

pub open spec fn opt_string_view(o: Option<String>) -> Option<Seq<char>> {
    match o {
        Some(s) => Some(s@),
        None => None,
    }
}

/// The strategy that `WORKSPACE_SHARED_DATA` names.
pub open spec fn shared_data_of(value: Option<Seq<char>>) -> WorkspaceSharedData {
    let v = crate::text::ascii_lower(
        match value {
            Some(v) => v,
            None => "none"@,
        },
    );
    if v == "global"@ || v == "all"@ {
        WorkspaceSharedData::Global
    } else if v == "user"@ || v == "per-user"@ || v == "same-user"@ {
        WorkspaceSharedData::User
    } else {
        WorkspaceSharedData::Unshared
    }
}

/// `w` is what `WorkspaceConfig::from_env` reads from `env`.
pub open spec fn workspace_config_from(env: Environment, w: WorkspaceConfig) -> bool {
    &&& w.port_start == (match u16_var(env, "WORKSPACE_PORT_START"@) { Some(p) => p, None => 30000u16, })
    &&& w.port_end == ({ let end = match u16_var(env, "WORKSPACE_PORT_END"@) { Some(p) => p, None => 30999u16, }; if end < w.port_start { w.port_start } else { end } })
    &&& w.port_start <= w.port_end
    &&& w.image@ == (match non_empty_var(env, "WORKSPACE_IMAGE"@) { Some(v) => v, None => "gitea-code-server:latest"@, })
    &&& opt_string_view(w.code_server_auth) == non_empty_var(env, "CODE_SERVER_AUTH"@)
    &&& opt_string_view(w.code_server_password) == non_empty_var( env, "WORKSPACE_CODE_SERVER_PASSWORD"@, )
    &&& opt_string_view(w.github_authentication_mode) == non_empty_var( env, "WORKSPACE_GITHUB_AUTHENTICATION_MODE"@, )
    &&& opt_string_view(w.github_token) == non_empty_var(env, "WORKSPACE_GITHUB_TOKEN"@)
    &&& w.shared_data == shared_data_of(non_empty_var(env, "WORKSPACE_SHARED_DATA"@))
    &&& string_views(w.shared_files@) == path_list_var(env, "WORKSPACE_SHARED_FILES"@)
    &&& string_views(w.shared_excludes@) == path_list_var(env, "WORKSPACE_SHARED_EXCLUDES"@)
}

/// `a` is what `AuthConfig::from_env` reads from `env`.
pub open spec fn auth_config_from(env: Environment, a: Option<AuthConfig>) -> bool {
    &&& a is Some <==> (non_empty_var(env, "GITEA_OAUTH_CLIENT_ID"@) is Some && non_empty_var(env, "GITEA_OAUTH_CLIENT_SECRET"@) is Some)
    &&& a matches Some(a) ==> opt_string_view(a.public_url) == non_empty_var(env, "WORKSPACE_MANAGER_PUBLIC_URL"@) && non_empty_var(env, "GITEA_OAUTH_CLIENT_ID"@) == Some(a.client_id@) && non_empty_var(env, "GITEA_OAUTH_CLIENT_SECRET"@) == Some(a.client_secret@)
}

// ---------------------------------------------------------------------------
// Executable functions
// ---------------------------------------------------------------------------
impl Environment {
    /// The value of the variable `name` (`std::env::var`).
    pub fn var(&self, name: &str) -> (res: Option<String>)
        ensures
            opt_string_view(res) == env_lookup(self.vars@, name@),
    {
        let mut i: usize = 0;
        proof {
            assert(self.vars@.skip(0) =~= self.vars@);
        }
        while i < self.vars.len()
            invariant
                i <= self.vars@.len(),
                env_lookup(self.vars@, name@) == env_lookup(self.vars@.skip(i as int), name@),
            decreases self.vars@.len() - i,
        {
            proof {
                assert(self.vars@.skip(i as int).drop_first() =~= self.vars@.skip(i + 1));
            }
            if same_text(self.vars[i].0.as_str(), name) {
                return Some(self.vars[i].1.clone());
            }
            i = i + 1;
        }
        proof {
            assert(self.vars@.skip(i as int) =~= Seq::<(String, String)>::empty());
        }
        None
    }
}

impl Config {
    /// The configuration that the environment describes. (Creating the data
    /// directory is left to the caller.)
    pub fn from_env(env: &Environment) -> (res: Config)
        ensures
            env_lookup(env.vars@, "WORKSPACE_MANAGER_DATA_DIR"@) matches Some(d) ==> res.data_dir@
                == d,
            env_lookup(env.vars@, "WORKSPACE_MANAGER_DATA_DIR"@) is None ==> res.data_dir@
                == "data"@,
            auth_config_from(*env, res.auth),
            workspace_config_from(*env, res.workspace),
    {
        let data_dir = match env.var("WORKSPACE_MANAGER_DATA_DIR") {
            Some(d) => d,
            None => copy_str("data"),
        };
        Config {
            data_dir,
            auth: AuthConfig::from_env(env),
            workspace: WorkspaceConfig::from_env(env),
        }
    }
}

impl WorkspaceConfig {
    pub fn from_env(env: &Environment) -> (res: WorkspaceConfig)
        ensures
            workspace_config_from(*env, res),
    {
        let port_start = match read_u16(env, "WORKSPACE_PORT_START") {
            Some(p) => p,
            None => 30000,
        };
        let mut port_end = match read_u16(env, "WORKSPACE_PORT_END") {
            Some(p) => p,
            None => 30999,
        };
        if port_end < port_start {
            port_end = port_start;
        }
        let image = match read_non_empty(env, "WORKSPACE_IMAGE") {
            Some(v) => v,
            None => copy_str("gitea-code-server:latest"),
        };
        WorkspaceConfig {
            image,
            port_start,
            port_end,
            code_server_auth: read_non_empty(env, "CODE_SERVER_AUTH"),
            code_server_password: read_non_empty(env, "WORKSPACE_CODE_SERVER_PASSWORD"),
            github_authentication_mode: read_non_empty(env, "WORKSPACE_GITHUB_AUTHENTICATION_MODE"),
            github_token: read_non_empty(env, "WORKSPACE_GITHUB_TOKEN"),
            shared_data: WorkspaceSharedData::from_env(env),
            shared_files: read_path_list(env, "WORKSPACE_SHARED_FILES"),
            shared_excludes: read_path_list(env, "WORKSPACE_SHARED_EXCLUDES"),
        }
    }
}

impl WorkspaceSharedData {
    pub fn from_env(env: &Environment) -> (res: WorkspaceSharedData)
        ensures
            res == shared_data_of(non_empty_var(*env, "WORKSPACE_SHARED_DATA"@)),
    {
        let raw = match read_non_empty(env, "WORKSPACE_SHARED_DATA") {
            Some(v) => v,
            None => copy_str("none"),
        };
        let value = to_ascii_lowercase(raw.as_str());
        if same_text(value.as_str(), "global") || same_text(value.as_str(), "all") {
            WorkspaceSharedData::Global
        } else if same_text(value.as_str(), "user") || same_text(value.as_str(), "per-user")
            || same_text(value.as_str(), "same-user") {
            WorkspaceSharedData::User
        } else {
            WorkspaceSharedData::Unshared
        }
    }
}

impl AuthConfig {
    /// The OAuth settings, when both the client id and secret are set.
    pub fn from_env(env: &Environment) -> (res: Option<AuthConfig>)
        ensures
            auth_config_from(*env, res),
    {
        let public_url = read_non_empty(env, "WORKSPACE_MANAGER_PUBLIC_URL");
        let client_id = match read_non_empty(env, "GITEA_OAUTH_CLIENT_ID") {
            Some(v) => v,
            None => return None,
        };
        let client_secret = match read_non_empty(env, "GITEA_OAUTH_CLIENT_SECRET") {
            Some(v) => v,
            None => return None,
        };
        Some(AuthConfig { public_url, client_id, client_secret })
    }
}

/// The variable's value, unless it is missing or blank.
pub fn read_non_empty(env: &Environment, name: &str) -> (res: Option<String>)
    ensures
        opt_string_view(res) == non_empty_var(*env, name@),
{
    match env.var(name) {
        Some(value) => {
            let trimmed = trim_text(value.as_str());
            if is_empty_text(trimmed.as_str()) {
                None
            } else {
                Some(value)
            }
        },
        None => None,
    }
}

/// The variable's value read as a `u16`.
pub fn read_u16(env: &Environment, name: &str) -> (res: Option<u16>)
    ensures
        res == u16_var(*env, name@),
{
    match read_non_empty(env, name) {
        Some(v) => parse_u16(v.as_str()),
        None => None,
    }
}

proof fn lemma_digits_value_nonneg(s: Seq<char>)
    requires
        all_digits(s),
    ensures
        digits_value(s) >= 0,
        s.len() > 0 ==> digits_value(s) >= digits_value(s.drop_last()),
    decreases s.len(),
{
    if s.len() > 0 {
        assert(all_digits(s.drop_last())) by {
            let t = s.drop_last();
            assert forall|i: int| 0 <= i < t.len() implies is_ascii_digit(#[trigger] t[i]) by {
                assert(t[i] == s[i]);
            }
        }
        assert(is_ascii_digit(s[s.len() - 1]));
        lemma_digits_value_nonneg(s.drop_last());
    }
}

/// A value of all digits whose prefixes grow past `limit` stays past it.
proof fn lemma_digits_value_prefix(s: Seq<char>, k: int)
    requires
        all_digits(s),
        0 <= k <= s.len(),
    ensures
        digits_value(s.take(k)) <= digits_value(s),
    decreases s.len() - k,
{
    if k < s.len() {
        assert(s.take(s.len() as int) =~= s);
        lemma_digits_value_prefix(s.drop_last(), k);
        assert(s.drop_last().take(k) =~= s.take(k));
        assert(all_digits(s.drop_last())) by {
            let t = s.drop_last();
            assert forall|i: int| 0 <= i < t.len() implies is_ascii_digit(#[trigger] t[i]) by {
                assert(t[i] == s[i]);
            }
        }
        lemma_digits_value_nonneg(s);
    } else {
        assert(s.take(k) =~= s);
    }
}

/// `u16::from_str`.
pub fn parse_u16(s: &str) -> (res: Option<u16>)
    ensures
        res == parse_u16_spec(s@),
{
    let v = chars_of(s);
    let n = v.len();
    let start: usize = if n > 0 && v[0] == '+' {
        1
    } else {
        0
    };
    let ghost d = if s@.len() > 0 && s@[0] == '+' {
        s@.drop_first()
    } else {
        s@
    };
    proof {
        assert(d =~= v@.skip(start as int));
    }
    if start == n {
        return None;
    }
    let mut value: u32 = 0;
    let mut i: usize = start;
    while i < n
        invariant
            v@ == s@,
            n == v@.len(),
            start <= i <= n,
            start < n,
            d == v@.skip(start as int),
            d == (if s@.len() > 0 && s@[0] == '+' {
                s@.drop_first()
            } else {
                s@
            }),
            all_digits(d.take(i - start)),
            value as int == digits_value(d.take(i - start)),
            value <= 65535,
        decreases n - i,
    {
        let c = v[i];
        if !('0' <= c && c <= '9') {
            proof {
                assert(d[i - start] == c);
                assert(!all_digits(d));
            }
            return None;
        }
        let digit: u32 = (c as u32) - ('0' as u32);
        proof {
            assert(d.take(i - start + 1).drop_last() =~= d.take(i - start));
            assert(d.take(i - start + 1).last() == c);
            let t = d.take(i - start + 1);
            assert(all_digits(t)) by {
                assert forall|j: int| 0 <= j < t.len() implies is_ascii_digit(#[trigger] t[j]) by {
                    if j < i - start {
                        assert(t[j] == d.take(i - start)[j]);
                    }
                }
            }
        }
        let next: u32 = value * 10 + digit;
        if next > 65535 {
            proof {
                if all_digits(d) {
                    lemma_digits_value_prefix(d, i - start + 1);
                }
            }
            return None;
        }
        value = next;
        i = i + 1;
    }
    proof {
        assert(d.take(n - start) =~= d);
    }
    Some(value as u16)
}

/// The comma-separated entries of the variable, trimmed, without the empty
/// ones.
pub fn read_path_list(env: &Environment, name: &str) -> (res: Vec<String>)
    ensures
        string_views(res@) == path_list_var(*env, name@),
{
    let value = match read_non_empty(env, name) {
        Some(v) => v,
        None => {
            let empty: Vec<String> = Vec::new();
            proof {
                assert(string_views(empty@) =~= Seq::<Seq<char>>::empty());
            }
            return empty;
        },
    };
    let pieces = split_char(value.as_str(), ',');
    let mut out: Vec<String> = Vec::new();
    let mut i: usize = 0;
    proof {
        assert(string_views(out@) =~= Seq::<Seq<char>>::empty());
    }
    while i < pieces.len()
        invariant
            i <= pieces@.len(),
            string_views(pieces@) == split_on(value@, ','),
            string_views(out@) == non_empty_trimmed(string_views(pieces@).take(i as int)),
        decreases pieces@.len() - i,
    {
        let t = trim_text(pieces[i].as_str());
        proof {
            let ps = string_views(pieces@);
            assert(ps.take(i + 1).drop_last() =~= ps.take(i as int));
            assert(ps.take(i + 1).last() == pieces@[i as int]@);
        }
        if !is_empty_text(t.as_str()) {
            proof {
                crate::text::lemma_string_views_push(out@, t);
            }
            out.push(t);
        }
        i = i + 1;
    }
    proof {
        assert(string_views(pieces@).take(pieces@.len() as int) =~= string_views(pieces@));
    }
    out
}


// ---------------------------------------------------------------------------
// Laws
// ---------------------------------------------------------------------------
proof fn lemma_lookup_skips_other_name(
    vars: Seq<(String, String)>,
    extra: (String, String),
    name: Seq<char>,
)
    requires
        extra.0@ != name,
    ensures
        env_lookup(seq![extra] + vars, name) == env_lookup(vars, name),
{
    assert((seq![extra] + vars).drop_first() =~= vars);
}

/// The shared files come from `WORKSPACE_SHARED_FILES` alone: a variable of
/// any other name, set before the others, changes nothing of them.
pub proof fn lemma_shared_files_read_only_their_variable(
    env: Environment,
    more: Environment,
    w: WorkspaceConfig,
    w_more: WorkspaceConfig,
)
    requires
        more.vars@.len() == env.vars@.len() + 1,
        more.vars@.drop_first() == env.vars@,
        more.vars@[0].0@ != "WORKSPACE_SHARED_FILES"@,
        workspace_config_from(env, w),
        workspace_config_from(more, w_more),
    ensures
        string_views(w_more.shared_files@) == string_views(w.shared_files@),
{
    assert(more.vars@ =~= seq![more.vars@[0]] + env.vars@);
    lemma_lookup_skips_other_name(env.vars@, more.vars@[0], "WORKSPACE_SHARED_FILES"@);
}

/// In an environment that sets only `WORKSPACE_SHARED_FILES=v`, the shared
/// files are the comma-separated pieces of `v`, trimmed, without the empty
/// ones (none at all when `v` is blank); in one that does not set it, there
/// are none.
pub proof fn lemma_shared_files_from_their_variable(env: Environment, w: WorkspaceConfig)
    requires
        workspace_config_from(env, w),
    ensures
        env.vars@.len() == 1 && env.vars@[0].0@ == "WORKSPACE_SHARED_FILES"@ && trim(
            env.vars@[0].1@,
        ).len() > 0 ==> string_views(w.shared_files@) == non_empty_trimmed(
            split_on(env.vars@[0].1@, ','),
        ),
        env.vars@.len() == 1 && env.vars@[0].0@ == "WORKSPACE_SHARED_FILES"@ && trim(
            env.vars@[0].1@,
        ).len() == 0 ==> w.shared_files@.len() == 0,
        env_lookup(env.vars@, "WORKSPACE_SHARED_FILES"@) is None ==> w.shared_files@.len() == 0,
{
    assert(string_views(w.shared_files@).len() == w.shared_files@.len());
}

} // verus!
