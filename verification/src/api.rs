//! The decisions of the HTTP API: who may see a workspace, which URLs are
//! safe to return to, what a git credential request may obtain, how a
//! workspace container is started, and how lists are ordered.
use axum::http::HeaderMap;
use vstd::prelude::*;

use crate::auth::{check_is_fresh, entry, AuthStore, GiteaUser, UserSession, TOKEN_CHECK_TTL_MS};
use crate::config::{opt_string_view, AuthConfig, WorkspaceConfig};
use crate::gitea_origin::{infer_gitea_base_url, inferred_gitea_base_url};
use crate::http_headers::{header_text, header_texts};
use crate::oauth::{session_id_from_headers, session_id_of_headers};
use crate::public_url::{
    infer_manager_base_url, inferred_manager_base_url, normalized_base_url, str_opt_view,
};
use crate::sources::{random_in_range, time_before};
use crate::text::{
    ascii_lower, chars_of, concat, copy_str, has_prefix, i64_text, int_text, is_empty_text,
    push_str, same_text, starts_with, string_of, trim, trim_end_matches_char,
    trim_end_matches_text, trim_end_seq, trim_start_char, trim_start_matches_char, trim_text,
    u64_text,
};
use crate::web_url::{
    ParsedUrl,
    parse_url, url_append_pair, url_host, url_known_port, url_parses, url_path, url_port,
    url_scheme, url_serialization, url_set_fragment, url_set_path, url_set_port, url_set_query,
    url_with_fragment, url_with_pair, url_with_path, url_with_port, url_with_query, UrlPortError,
};
use crate::store::{
    first_with_token, lemma_list_is_matching, lemma_stored, lookup, matching, stored, WorkspaceStore,
};
use crate::workspace::{copy_opt, Workspace, WorkspaceQuery, WorkspaceStatus};

verus! {

/// An error answer: an HTTP status and a message.
pub struct ApiError {
    pub status: u16,
    pub message: String,
}

pub open spec fn is_error(e: ApiError, status: u16, message: Seq<char>) -> bool {
    e.status == status && e.message@ == message
}

fn api_error(status: u16, message: &str) -> (res: ApiError)
    ensures
        is_error(res, status, message@),
{
    ApiError { status, message: copy_str(message) }
}

/// Whether a request re-checks the session's Gitea token.
#[derive(Clone, Copy, PartialEq, Eq, Structural, Debug)]
pub enum AuthCheckMode {
    /// Re-check only when the last check is older than a minute.
    Cached,
    /// Always re-check.
    Fresh,
}

/// A git credential helper's request.
pub struct GitCredentialRequest {
    pub protocol: String,
    pub host: String,
    pub path: String,
}

/// The credentials handed to git.
pub struct GitCredentialResponse {
    pub username: String,
    pub password: String,
}

/// A git credential request that may be put to Gitea: the workspace its
/// token names and the session of the workspace's owner.
pub struct CredentialGrant {
    pub workspace: Workspace,
    pub session: UserSession,
}

/// The answer to a workspace list.
pub struct WorkspaceListResponse {
    pub exists: bool,
    pub count: usize,
    pub workspaces: Vec<Workspace>,
}

/// What a login start records and where it sends the browser.
pub struct AuthStartPlan {
    pub gitea_base_url: String,
    pub redirect_uri: String,
    pub return_to: Option<String>,
    pub popup: bool,
}

/// What starting a workspace container needs besides the configuration.
pub struct StartInputs {
    pub manager_url: String,
    pub clone_url: String,
    pub git_user_name: String,
    pub git_user_email: String,
}

// ---------------------------------------------------------------------------
// Sessions
// ---------------------------------------------------------------------------
/// The decimal form of a Gitea user id, as workspaces record their owner.
pub fn user_id_text(user: &GiteaUser) -> (res: String)
    ensures
        res@ == int_text(user.id as int),
{
    i64_text(user.id)
}

/// Whether a request must ask Gitea again whether the session's token is
/// valid, at monotonic time `now_ms`.
pub fn token_check_needed(store: &AuthStore, session_id: &str, mode: AuthCheckMode, now_ms: u64) -> (res: bool)
    ensures
        res == match mode {
            AuthCheckMode::Fresh => true,
            AuthCheckMode::Cached => !match entry(store.checks(), session_id@) {
                Some(t) => check_is_fresh(t, now_ms, TOKEN_CHECK_TTL_MS),
                None => false,
            },
        },
{
    match mode {
        AuthCheckMode::Fresh => true,
        AuthCheckMode::Cached => !store.token_check_is_fresh(session_id, now_ms, TOKEN_CHECK_TTL_MS),
    }
}

/// Whether a check is needed, by the same rule as `token_check_needed`.
pub open spec fn check_needed(checks: Map<Seq<char>, u64>, session_id: Seq<char>, mode: AuthCheckMode, now_ms: u64) -> bool {
    match mode {
        AuthCheckMode::Fresh => true,
        AuthCheckMode::Cached => !match entry(checks, session_id) {
            Some(t) => check_is_fresh(t, now_ms, TOKEN_CHECK_TTL_MS),
            None => false,
        },
    }
}

/// What a request that needs a session gets before Gitea is asked anything.
pub enum SessionGate {
    /// No session cookie, or no session under its id: the request must log in.
    AuthRequired,
    /// A session whose token needs no check now.
    Ready(UserSession),
    /// A session whose token Gitea must confirm first.
    Confirm { session_id: String, session: UserSession },
}

/// The first step of authenticating a request at monotonic time `now_ms`:
/// the session its cookie names, and whether Gitea must confirm its token.
pub fn session_gate(headers: &HeaderMap, auth: &AuthStore, mode: AuthCheckMode, now_ms: u64) -> (res: SessionGate)
    ensures
        match session_id_of_headers(*headers) {
            None => res is AuthRequired,
            Some(id) => match entry(auth.session_map(), id) {
                None => res is AuthRequired,
                Some(s) => if check_needed(auth.checks(), id, mode, now_ms) {
                    res matches SessionGate::Confirm { session_id, session } && session_id@ == id
                        && session == s
                } else {
                    res == SessionGate::Ready(s)
                },
            },
        },
{
    let session_id = match session_id_from_headers(headers) {
        Some(id) => id,
        None => return SessionGate::AuthRequired,
    };
    let session = match auth.get_session(session_id.as_str()) {
        Some(s) => s,
        None => return SessionGate::AuthRequired,
    };
    if token_check_needed(auth, session_id.as_str(), mode, now_ms) {
        SessionGate::Confirm { session_id, session }
    } else {
        SessionGate::Ready(session)
    }
}

/// The second step, once Gitea described the token's user (or failed to):
/// the same user keeps the session, with the fresh user record, and the
/// check is recorded at `now_ms`; otherwise the session and its check are
/// forgotten.
pub fn finish_session_check(
    auth: &mut AuthStore,
    session_id: &str,
    session: UserSession,
    fetched: Option<GiteaUser>,
    now_ms: u64,
) -> (res: Option<UserSession>)
    ensures
        fetched matches Some(u) && u.id == session.user.id ==> {
            &&& res == Some(UserSession { user: fetched->0, ..session })
            &&& final(auth).checks() == old(auth).checks().insert(session_id@, now_ms)
            &&& final(auth).session_map() == old(auth).session_map()
        },
        !(fetched matches Some(u) && u.id == session.user.id) ==> {
            &&& res is None
            &&& final(auth).session_map() == old(auth).session_map().remove(session_id@)
            &&& final(auth).checks() == old(auth).checks().remove(session_id@)
        },
        final(auth).pending() == old(auth).pending(),
{
    match checked_session(session, fetched) {
        Some(s) => {
            auth.mark_token_checked(session_id, now_ms);
            Some(s)
        },
        None => {
            auth.remove_session(session_id);
            None
        },
    }
}

/// The session after Gitea described the token's user: kept, with the
/// fresh user record, only when it is the same user.
pub fn checked_session(session: UserSession, fetched: Option<GiteaUser>) -> (res: Option<UserSession>)
    ensures
        match fetched {
            Some(u) => if u.id == session.user.id {
                res == Some(UserSession { user: u, ..session })
            } else {
                res is None
            },
            None => res is None,
        },
{
    match fetched {
        Some(user) => {
            if user.id == session.user.id {
                Some(UserSession { user, ..session })
            } else {
                None
            }
        },
        None => None,
    }
}

// ---------------------------------------------------------------------------
// Workspaces
// ---------------------------------------------------------------------------
/// The workspace, if the user owns it; otherwise the error to answer.
pub fn owned_workspace(found: Option<Workspace>, user_id: &str) -> (res: Result<Workspace, ApiError>)
    ensures
        match found {
            Some(w) => if w.user_id@ == user_id@ {
                res == Ok::<Workspace, ApiError>(w)
            } else {
                res matches Err(e) && is_error(e, 403, "workspace belongs to another user"@)
            },
            None => res matches Err(e) && is_error(e, 404, "workspace not found"@),
        },
{
    match found {
        Some(w) => {
            if same_text(w.user_id.as_str(), user_id) {
                Ok(w)
            } else {
                Err(api_error(403, "workspace belongs to another user"))
            }
        },
        None => Err(api_error(404, "workspace not found")),
    }
}

/// The query restricted to one user's workspaces.
pub fn scoped_query(query: WorkspaceQuery, user_id: String) -> (res: WorkspaceQuery)
    ensures
        res == (WorkspaceQuery { user_id: Some(user_id), ..query }),
{
    WorkspaceQuery { user_id: Some(user_id), ..query }
}

/// `a` was updated no earlier than `b`.
pub open spec fn newer_or_same(a: Workspace, b: Workspace) -> bool {
    !time_before(a.updated_at, b.updated_at)
}

/// Ordered from the most recently updated to the least.
pub open spec fn newest_first(s: Seq<Workspace>) -> bool {
    forall|i: int, j: int|
        #![trigger s[i], s[j]]
        0 <= i < j < s.len() ==> newer_or_same(s[i], s[j])
}

/// Where a stable sort from newest to oldest puts `w` among the sorted `s`:
/// after every workspace updated no earlier than it.
pub open spec fn newest_slot(s: Seq<Workspace>, w: Workspace) -> int
    decreases s.len(),
{
    if s.len() == 0 {
        0
    } else if time_before(s[0].updated_at, w.updated_at) {
        0
    } else {
        1 + newest_slot(s.drop_first(), w)
    }
}

/// The stable sort from newest to oldest: each workspace in turn goes after
/// those already placed that were updated no earlier than it.
pub open spec fn sorted_newest_first(s: Seq<Workspace>) -> Seq<Workspace>
    decreases s.len(),
{
    if s.len() == 0 {
        Seq::empty()
    } else {
        let r = sorted_newest_first(s.drop_last());
        r.insert(newest_slot(r, s.last()), s.last())
    }
}

fn updated_before(a: &Workspace, b: &Workspace) -> (res: bool)
    ensures
        res == time_before(a.updated_at, b.updated_at),
{
    a.updated_at.secs < b.updated_at.secs || (a.updated_at.secs == b.updated_at.secs
        && a.updated_at.nanos < b.updated_at.nanos)
}

/// The workspaces ordered from the most recently updated to the least.
pub fn sort_newest_first(list: Vec<Workspace>) -> (res: Vec<Workspace>)
    ensures
        res@ == sorted_newest_first(list@),
        newest_first(res@),
        res@.to_multiset() == list@.to_multiset(),
{
    broadcast use vstd::seq_lib::group_to_multiset_ensures;

    let mut out: Vec<Workspace> = Vec::new();
    let mut i: usize = 0;
    while i < list.len()
        invariant
            i <= list@.len(),
            out@ == sorted_newest_first(list@.take(i as int)),
            newest_first(out@),
            out@.to_multiset() == list@.take(i as int).to_multiset(),
        decreases list@.len() - i,
    {
        let w = list[i].duplicate();
        let mut k: usize = 0;
        proof {
            assert(out@.skip(0) =~= out@);
        }
        while k < out.len() && !updated_before(&out[k], &w)
            invariant
                k <= out@.len(),
                forall|a: int| 0 <= a < k ==> newer_or_same(#[trigger] out@[a], w),
                newest_slot(out@, w) == k + newest_slot(out@.skip(k as int), w),
            decreases out@.len() - k,
        {
            proof {
                assert(out@.skip(k as int).drop_first() =~= out@.skip(k + 1));
            }
            k = k + 1;
        }
        proof {
            let t = list@.take(i + 1);
            assert(t.drop_last() =~= list@.take(i as int));
            assert(newest_slot(out@, w) == k);
            vstd::seq_lib::to_multiset_insert(out@, k as int, w);
            assert(list@.take(i + 1) =~= list@.take(i as int).push(list@[i as int]));
            vstd::seq_lib::to_multiset_build(list@.take(i as int), list@[i as int]);
        }
        let ghost before = out@;
        out.insert(k, w);
        proof {
            assert forall|a: int, b: int| 0 <= a < b < out@.len() implies newer_or_same(
                #[trigger] out@[a],
                #[trigger] out@[b],
            ) by {
                if a < k && b < k {
                    assert(out@[a] == before[a] && out@[b] == before[b]);
                } else if a < k && b == k {
                    assert(out@[a] == before[a]);
                } else if a < k && b > k {
                    assert(out@[a] == before[a] && out@[b] == before[b - 1]);
                } else if a == k {
                    assert(out@[b] == before[b - 1]);
                    if k < before.len() {
                        assert(time_before(before[k as int].updated_at, w.updated_at));
                        if b - 1 > k {
                            assert(newer_or_same(before[k as int], before[b - 1]));
                        }
                    }
                } else {
                    assert(out@[a] == before[a - 1] && out@[b] == before[b - 1]);
                }
            }
        }
        i = i + 1;
    }
    proof {
        assert(list@.take(i as int) =~= list@);
    }
    out
}

/// The answer to a workspace list.
pub fn list_response(workspaces: Vec<Workspace>) -> (res: WorkspaceListResponse)
    ensures
        res.exists == (workspaces@.len() > 0),
        res.count == workspaces@.len(),
        res.workspaces@ == workspaces@,
{
    WorkspaceListResponse { exists: workspaces.len() > 0, count: workspaces.len(), workspaces }
}

/// Creates and stores a workspace for a create request, with the
/// code-server password the configuration calls for: none when code-server
/// authentication is off, else the configured password, else the generated
/// one (18 random letters and digits).
pub fn create_workspace_record(
    store: &mut WorkspaceStore,
    config: &WorkspaceConfig,
    req: crate::workspace::CreateWorkspaceRequest,
    user_id: String,
    session_id: String,
    gitea_base_url: String,
) -> (res: Workspace)
    requires
        old(store).wf(),
    ensures
        final(store).wf(),
        crate::workspace::built_from(res, req, user_id@, session_id@, gitea_base_url@),
        crate::workspace::is_generated_id(res.workspace_id@),
        res.workspace_token@.len() == 48,
        crate::sources::all_alphanumeric(res.workspace_token@),
        lookup(old(store).contents(), res.workspace_id@) is None ==> final(store).contents()
            == old(store).contents().push(res),
        forall|id: Seq<char>|
            #![trigger lookup(final(store).contents(), id)]
            lookup(final(store).contents(), id) == if id == res.workspace_id@ {
                Some(res)
            } else {
                lookup(old(store).contents(), id)
            },
        opt_string_view(config.code_server_auth) == Some("none"@) ==> res.code_server_password
            is None,
        opt_string_view(config.code_server_auth) != Some("none"@)
            && config.code_server_password is Some ==> res.code_server_password
            == config.code_server_password,
        opt_string_view(config.code_server_auth) != Some("none"@)
            && config.code_server_password is None ==> (res.code_server_password matches Some(p)
            && p@.len() == 18 && crate::sources::all_alphanumeric(p@)),
{
    let ghost before = store.contents();
    let created = store.create(req, user_id, session_id, gitea_base_url);
    let ghost middle = store.contents();
    proof {
        lemma_stored(before, created);
    }
    let password = effective_code_server_password(config, created.code_server_password.clone());
    let res = match store.set_code_server_password(created.workspace_id.as_str(), password) {
        Some(w) => w,
        None => created,
    };
    proof {
        lemma_stored(middle, res);
        crate::store::lemma_position_of(before, created.workspace_id@);
        if lookup(before, created.workspace_id@) is None {
            crate::store::lemma_position_of(middle, created.workspace_id@);
            assert(middle == before.push(created));
            assert(crate::store::position_of(middle, created.workspace_id@) == Some(before.len() as int));
        }
    }
    res
}

/// Records how starting a new workspace's container went: running at the
/// returned URL, or in error with the failure answered as a server error.
/// (A workspace removed in the meantime is answered as it was.)
pub fn finish_workspace_start(
    store: &mut WorkspaceStore,
    workspace: Workspace,
    started: Result<String, String>,
) -> (res: Result<Workspace, ApiError>)
    requires
        old(store).wf(),
    ensures
        final(store).wf(),
        match started {
            Ok(url) => match lookup(old(store).contents(), workspace.workspace_id@) {
                Some(w) => res matches Ok(n) && n == (Workspace {
                    status: WorkspaceStatus::Running,
                    url: Some(url),
                    updated_at: n.updated_at,
                    ..w
                }) && final(store).contents() == stored(old(store).contents(), n),
                None => res == Ok::<Workspace, ApiError>(workspace) && final(store).contents()
                    == old(store).contents(),
            },
            Err(m) => res matches Err(e) && is_error(e, 500, m@) && match lookup(
                old(store).contents(),
                workspace.workspace_id@,
            ) {
                Some(w) => lookup(final(store).contents(), workspace.workspace_id@) matches Some(n)
                    && n == (Workspace { status: WorkspaceStatus::Error, updated_at: n.updated_at, ..w })
                    && final(store).contents() == stored(old(store).contents(), n),
                None => final(store).contents() == old(store).contents(),
            },
        },
{
    match started {
        Ok(url) => {
            match store.mark(workspace.workspace_id.as_str(), WorkspaceStatus::Running, Some(url)) {
                Some(n) => Ok(n),
                None => Ok(workspace),
            }
        },
        Err(message) => {
            let ghost before = store.contents();
            let marked = store.mark(workspace.workspace_id.as_str(), WorkspaceStatus::Error, None);
            proof {
                crate::store::lemma_position_of(before, workspace.workspace_id@);
                if let Some(n) = marked {
                    lemma_stored(before, n);
                }
            }
            Err(ApiError { status: 500, message })
        },
    }
}

/// The URL a workspace is reached at after a status change: its path under
/// `/spaces/` when it runs, none otherwise.
pub fn spaces_url(status: WorkspaceStatus, workspace_id: &str) -> (res: Option<String>)
    ensures
        status == WorkspaceStatus::Running ==> (res matches Some(u) && u@ == "/spaces/"@
            + workspace_id@ + "/"@),
        status != WorkspaceStatus::Running ==> res is None,
{
    if status == WorkspaceStatus::Running {
        let a = concat("/spaces/", workspace_id);
        Some(concat(a.as_str(), "/"))
    } else {
        None
    }
}

/// Refuses a create request without a repository.
pub fn check_create_request(repo: &str) -> (res: Result<(), ApiError>)
    ensures
        res is Ok <==> trim(repo@).len() > 0,
        res matches Err(e) ==> is_error(e, 400, "repo is required"@),
{
    let t = trim_text(repo);
    if is_empty_text(t.as_str()) {
        Err(api_error(400, "repo is required"))
    } else {
        Ok(())
    }
}

/// The code-server password a new workspace keeps: none when code-server
/// runs without authentication, the configured one when there is one, the
/// generated one otherwise.
pub fn effective_code_server_password(config: &WorkspaceConfig, generated: Option<String>) -> (res: Option<String>)
    ensures
        opt_string_view(config.code_server_auth) == Some("none"@) ==> res is None,
        opt_string_view(config.code_server_auth) != Some("none"@) ==> res == match config.code_server_password {
            Some(p) => Some(p),
            None => generated,
        },
{
    if auth_disabled(config) {
        None
    } else {
        match &config.code_server_password {
            Some(p) => Some(p.clone()),
            None => generated,
        }
    }
}

fn auth_disabled(config: &WorkspaceConfig) -> (res: bool)
    ensures
        res == (opt_string_view(config.code_server_auth) == Some("none"@)),
{
    match &config.code_server_auth {
        Some(a) => same_text(a.as_str(), "none"),
        None => false,
    }
}

// ---------------------------------------------------------------------------
// Starting a workspace container
// ---------------------------------------------------------------------------
/// A text that is not blank.
pub open spec fn non_blank(o: Option<String>) -> Option<Seq<char>> {
    match o {
        Some(s) => if trim(s@).len() > 0 {
            Some(s@)
        } else {
            None
        },
        None => None,
    }
}

/// The name commits carry: the full name, unless blank, else the login.
pub open spec fn git_user_name_of(user: GiteaUser) -> Seq<char> {
    match non_blank(user.full_name) {
        Some(n) => n,
        None => user.login@,
    }
}

/// The email commits carry: the user's, unless blank, else
/// `{login}.noreply.local`.
pub open spec fn git_user_email_of(user: GiteaUser) -> Seq<char> {
    match non_blank(user.email) {
        Some(e) => e,
        None => user.login@ + ".noreply.local"@,
    }
}

/// The name and email that commits in the workspace carry.
pub fn git_identity(user: &GiteaUser) -> (res: (String, String))
    ensures
        res.0@ == git_user_name_of(*user),
        res.1@ == git_user_email_of(*user),
{
    let name = match &user.full_name {
        Some(n) => {
            let t = trim_text(n.as_str());
            if is_empty_text(t.as_str()) {
                user.login.clone()
            } else {
                n.clone()
            }
        },
        None => user.login.clone(),
    };
    let email = match &user.email {
        Some(e) => {
            let t = trim_text(e.as_str());
            if is_empty_text(t.as_str()) {
                concat(user.login.as_str(), ".noreply.local")
            } else {
                e.clone()
            }
        },
        None => concat(user.login.as_str(), ".noreply.local"),
    };
    (name, email)
}

/// What starting the container needs: the manager's public URL, the clone
/// URL and the git identity; or why the start cannot go on.
pub fn prepare_start(
    auth: Option<&AuthConfig>,
    headers: &HeaderMap,
    workspace: &Workspace,
    session: &UserSession,
) -> (res: Result<StartInputs, String>)
    ensures
        inferred_manager_base_url(*headers, configured_public_url(auth)) is None ==> (res matches Err(
            e,
        ) && e@ == "cannot infer manager public url"@),
        inferred_manager_base_url(*headers, configured_public_url(auth)) is Some
            && workspace.clone_url is None ==> (res matches Err(e) && e@
            == "clone_url is required"@),
        res matches Ok(s) ==> inferred_manager_base_url(*headers, configured_public_url(auth))
            == Some(s.manager_url@) && workspace.clone_url == Some(s.clone_url)
            && s.git_user_name@ == git_user_name_of(session.user)
            && s.git_user_email@ == git_user_email_of(session.user),
        res is Ok <==> (inferred_manager_base_url(*headers, configured_public_url(auth)) is Some
            && workspace.clone_url is Some),
{
    let public_url: Option<&str> = match auth {
        Some(a) => match &a.public_url {
            Some(u) => Some(u.as_str()),
            None => None,
        },
        None => None,
    };
    let manager_url = match infer_manager_base_url(headers, public_url) {
        Some(u) => u,
        None => return Err(copy_str("cannot infer manager public url")),
    };
    let clone_url = match &workspace.clone_url {
        Some(c) => c.clone(),
        None => return Err(copy_str("clone_url is required")),
    };
    let (git_user_name, git_user_email) = git_identity(&session.user);
    Ok(StartInputs { manager_url, clone_url, git_user_name, git_user_email })
}

/// The public URL configured for the manager, if any.
pub open spec fn configured_public_url(auth: Option<&AuthConfig>) -> Option<Seq<char>> {
    match auth {
        Some(a) => opt_string_view(a.public_url),
        None => None,
    }
}

/// A port for the workspace: the only one of a one-port range, otherwise a
/// random one of `start..=end`.
pub fn random_workspace_port(start: u16, end: u16) -> (res: u16)
    requires
        start <= end,
    ensures
        start <= res <= end,
{
    if start == end {
        return start;
    }
    random_in_range(start, end)
}

/// The argument of `docker run -v` for a bind mount.
pub fn bind_mount_arg(host: &str, container: &str) -> (res: String)
    ensures
        res@ == host@ + ":"@ + container@,
{
    let a = concat(host, ":");
    concat(a.as_str(), container)
}

/// The `docker run` arguments of a workspace container. Besides the
/// workspace's own settings, the container gets `GITHUB_AUTHENTICATION_MODE`
/// and `GITHUB_TOKEN` from `WORKSPACE_GITHUB_AUTHENTICATION_MODE` and
/// `WORKSPACE_GITHUB_TOKEN`, each only when it is configured, as the
/// deployment guide describes.
pub open spec fn docker_args_spec(
    config: WorkspaceConfig,
    workspace: Workspace,
    port: u16,
    inputs: StartInputs,
    mount_args: Seq<Seq<char>>,
) -> Seq<Seq<char>> {
    let base = seq![
        "run"@,
        "-d"@,
        "--name"@,
        workspace.container_name@,
        "-p"@,
        "0.0.0.0:"@ + int_text(port as int) + ":8080"@,
        "-e"@,
        "WORKSPACE_TOKEN="@ + workspace.workspace_token@,
        "-e"@,
        "WORKSPACE_MANAGER_URL="@ + inputs.manager_url@,
        "-e"@,
        "CLONE_URL="@ + inputs.clone_url@,
        "-e"@,
        "GIT_USER_NAME="@ + inputs.git_user_name@,
        "-e"@,
        "GIT_USER_EMAIL="@ + inputs.git_user_email@,
    ];
    let auth: Seq<Seq<char>> = if opt_string_view(config.code_server_auth) == Some("none"@) {
        seq!["-e"@, "CODE_SERVER_AUTH=none"@]
    } else {
        match workspace.code_server_password {
            Some(p) => seq!["-e"@, "PASSWORD="@ + p@],
            None => Seq::empty(),
        }
    };
    let github_mode: Seq<Seq<char>> = match config.github_authentication_mode {
        Some(m) => seq!["-e"@, "GITHUB_AUTHENTICATION_MODE="@ + m@],
        None => Seq::empty(),
    };
    let github_token: Seq<Seq<char>> = match config.github_token {
        Some(t) => seq!["-e"@, "GITHUB_TOKEN="@ + t@],
        None => Seq::empty(),
    };
    base + auth + github_mode + github_token + mount_args + seq![config.image@]
}

fn push_arg(args: &mut Vec<String>, a: String)
    ensures
        crate::text::string_views(final(args)@) == crate::text::string_views(old(args)@).push(a@),
{
    proof {
        crate::text::lemma_string_views_push(args@, a);
    }
    args.push(a);
}

/// The `docker run` arguments that start a workspace container on `port`,
/// with the given prepared bind-mount arguments.
pub fn docker_run_args(
    config: &WorkspaceConfig,
    workspace: &Workspace,
    port: u16,
    inputs: &StartInputs,
    mount_args: &Vec<String>,
) -> (res: Vec<String>)
    ensures
        crate::text::string_views(res@) == docker_args_spec(
            *config,
            *workspace,
            port,
            *inputs,
            crate::text::string_views(mount_args@),
        ),
{
    let mut args: Vec<String> = Vec::new();
    proof {
        assert(crate::text::string_views(args@) =~= Seq::<Seq<char>>::empty());
    }
    push_arg(&mut args, copy_str("run"));
    push_arg(&mut args, copy_str("-d"));
    push_arg(&mut args, copy_str("--name"));
    push_arg(&mut args, workspace.container_name.clone());
    push_arg(&mut args, copy_str("-p"));
    let port_text = u64_text(port as u64);
    let a = concat("0.0.0.0:", port_text.as_str());
    push_arg(&mut args, concat(a.as_str(), ":8080"));
    push_arg(&mut args, copy_str("-e"));
    push_arg(&mut args, concat("WORKSPACE_TOKEN=", workspace.workspace_token.as_str()));
    push_arg(&mut args, copy_str("-e"));
    push_arg(&mut args, concat("WORKSPACE_MANAGER_URL=", inputs.manager_url.as_str()));
    push_arg(&mut args, copy_str("-e"));
    push_arg(&mut args, concat("CLONE_URL=", inputs.clone_url.as_str()));
    push_arg(&mut args, copy_str("-e"));
    push_arg(&mut args, concat("GIT_USER_NAME=", inputs.git_user_name.as_str()));
    push_arg(&mut args, copy_str("-e"));
    push_arg(&mut args, concat("GIT_USER_EMAIL=", inputs.git_user_email.as_str()));
    let ghost base = crate::text::string_views(args@);
    if auth_disabled(config) {
        push_arg(&mut args, copy_str("-e"));
        push_arg(&mut args, copy_str("CODE_SERVER_AUTH=none"));
    } else {
        match &workspace.code_server_password {
            Some(p) => {
                push_arg(&mut args, copy_str("-e"));
                push_arg(&mut args, concat("PASSWORD=", p.as_str()));
            },
            None => {},
        }
    }
    match &config.github_authentication_mode {
        Some(m) => {
            push_arg(&mut args, copy_str("-e"));
            push_arg(&mut args, concat("GITHUB_AUTHENTICATION_MODE=", m.as_str()));
        },
        None => {},
    }
    match &config.github_token {
        Some(t) => {
            push_arg(&mut args, copy_str("-e"));
            push_arg(&mut args, concat("GITHUB_TOKEN=", t.as_str()));
        },
        None => {},
    }
    let ghost with_auth = crate::text::string_views(args@);
    let mut i: usize = 0;
    while i < mount_args.len()
        invariant
            i <= mount_args@.len(),
            crate::text::string_views(args@) == with_auth + crate::text::string_views(
                mount_args@,
            ).take(i as int),
        decreases mount_args@.len() - i,
    {
        proof {
            let ms = crate::text::string_views(mount_args@);
            assert(ms.take(i + 1) =~= ms.take(i as int).push(mount_args@[i as int]@));
            assert(with_auth + ms.take(i as int).push(mount_args@[i as int]@) =~= (with_auth
                + ms.take(i as int)).push(mount_args@[i as int]@));
        }
        push_arg(&mut args, mount_args[i].clone());
        i = i + 1;
    }
    push_arg(&mut args, config.image.clone());
    proof {
        let ms = crate::text::string_views(mount_args@);
        assert(ms.take(i as int) =~= ms);
        assert(base =~= seq![
            "run"@,
            "-d"@,
            "--name"@,
            workspace.container_name@,
            "-p"@,
            "0.0.0.0:"@ + int_text(port as int) + ":8080"@,
            "-e"@,
            "WORKSPACE_TOKEN="@ + workspace.workspace_token@,
            "-e"@,
            "WORKSPACE_MANAGER_URL="@ + inputs.manager_url@,
            "-e"@,
            "CLONE_URL="@ + inputs.clone_url@,
            "-e"@,
            "GIT_USER_NAME="@ + inputs.git_user_name@,
            "-e"@,
            "GIT_USER_EMAIL="@ + inputs.git_user_email@,
        ]);
        assert(crate::text::string_views(args@) =~= docker_args_spec(
            *config,
            *workspace,
            port,
            *inputs,
            ms,
        ));
    }
    args
}

/// The bookkeeping of the attempts to start a container: at most twenty
/// ports are tried, and the last failure is remembered.
pub struct StartAttempts {
    pub made: u32,
    pub last_error: Option<String>,
}

pub const MAX_START_ATTEMPTS: u32 = 20;

impl StartAttempts {
    pub fn new() -> (res: StartAttempts)
        ensures
            res.made == 0,
            res.last_error is None,
    {
        StartAttempts { made: 0, last_error: None }
    }

    /// The port of the next attempt, or none when all attempts are spent.
    pub fn next_port(&mut self, start: u16, end: u16) -> (res: Option<u16>)
        requires
            start <= end,
            old(self).made <= MAX_START_ATTEMPTS,
        ensures
            old(self).made < MAX_START_ATTEMPTS ==> (res matches Some(p) && start <= p <= end
                && final(self).made == old(self).made + 1),
            old(self).made >= MAX_START_ATTEMPTS ==> res is None && final(self).made == old(
                self,
            ).made,
            final(self).made <= MAX_START_ATTEMPTS,
            final(self).last_error == old(self).last_error,
    {
        if self.made >= MAX_START_ATTEMPTS {
            return None;
        }
        self.made = self.made + 1;
        Some(random_workspace_port(start, end))
    }

    /// Remembers a failed attempt's error output, trimmed.
    pub fn record_failure(&mut self, stderr: &str)
        ensures
            final(self).made == old(self).made,
            final(self).last_error matches Some(e) && e@ == trim(stderr@),
    {
        self.last_error = Some(trim_text(stderr));
    }

    /// The error to report when no attempt succeeded.
    pub fn failure_message(&self) -> (res: String)
        ensures
            res@ == match self.last_error {
                Some(e) => e@,
                None => "failed to allocate workspace port"@,
            },
    {
        match &self.last_error {
            Some(e) => e.clone(),
            None => copy_str("failed to allocate workspace port"),
        }
    }
}

/// The URL of a started workspace: the manager's URL at the workspace's
/// port, with the path `/` and no query or fragment.
pub open spec fn workspace_url_at(manager_url: Seq<char>, port: u16) -> Seq<char> {
    url_with_fragment(
        url_with_query(url_with_path(url_with_port(manager_url, Some(port)), "/"@), None),
        None,
    )
}

/// The URL of a started workspace, or why it cannot be made.
pub fn workspace_public_url(manager_url: &str, port: u16) -> (res: Result<String, String>)
    ensures
        !url_parses(manager_url@) ==> (res matches Err(e) && e@ == "invalid manager public url"@),
        url_parses(manager_url@) && !crate::web_url::url_port_settable(manager_url@, Some(port))
            ==> (res matches Err(e) && e@ == "failed to set workspace port"@),
        url_parses(manager_url@) && crate::web_url::url_port_settable(manager_url@, Some(port)) ==> (
        res matches Ok(u) && u@ == workspace_url_at(manager_url@, port)),
{
    let with_port = match url_set_port(manager_url, Some(port)) {
        Ok(u) => u,
        Err(UrlPortError::Unparsable) => return Err(copy_str("invalid manager public url")),
        Err(UrlPortError::PortRejected) => return Err(copy_str("failed to set workspace port")),
    };
    let with_path = match url_set_path(with_port.as_str(), "/") {
        Some(u) => u,
        None => vstd::pervasive::unreached(),
    };
    let with_query = match url_set_query(with_path.as_str(), None) {
        Some(u) => u,
        None => vstd::pervasive::unreached(),
    };
    let root = match url_set_fragment(with_query.as_str(), None) {
        Some(u) => u,
        None => vstd::pervasive::unreached(),
    };
    proof {
        reveal_strlit("/");
    }
    Ok(root)
}

// ---------------------------------------------------------------------------
// Login
// ---------------------------------------------------------------------------
/// `value` trimmed and without trailing slashes, if it is an http(s) URL.
pub fn normalize_http_base_url(value: &str) -> (res: Option<String>)
    ensures
        match res {
            Some(v) => normalized_base_url(value@) == Some(v@),
            None => normalized_base_url(value@) is None,
        },
{
    let trimmed = trim_text(value);
    let v = trim_end_matches_char(trimmed.as_str(), '/');
    if starts_with(v.as_str(), "http://") || starts_with(v.as_str(), "https://") {
        Some(v)
    } else {
        None
    }
}

/// What `safe_return_to(gitea_base_url, value)` returns: a path of this
/// site (one leading `/`, not two) as it is; otherwise a URL with the same
/// scheme, host and port as Gitea, normalized; anything else is refused.
pub open spec fn safe_return_target(gitea_base_url: Seq<char>, value: Seq<char>) -> Option<Seq<char>> {
    if has_prefix(value, "/"@) && !has_prefix(value, "//"@) {
        Some(value)
    } else if url_parses(gitea_base_url) && url_parses(value) && url_scheme(value) == url_scheme(
        gitea_base_url,
    ) && url_host(value) == url_host(gitea_base_url) && url_known_port(value) == url_known_port(
        gitea_base_url,
    ) {
        Some(url_serialization(value))
    } else {
        None
    }
}

/// The page to send the browser back to after login, if it is safe: a
/// path of this site, or a page of the same Gitea origin.
pub fn safe_return_to(gitea_base_url: &str, value: &str) -> (res: Option<String>)
    ensures
        match res {
            Some(v) => safe_return_target(gitea_base_url@, value@) == Some(v@),
            None => safe_return_target(gitea_base_url@, value@) is None,
        },
{
    if starts_with(value, "/") && !starts_with(value, "//") {
        return Some(copy_str(value));
    }
    let gitea = match parse_url(gitea_base_url) {
        Some(u) => u,
        None => return None,
    };
    let target = match parse_url(value) {
        Some(u) => u,
        None => return None,
    };
    let same_host = match (&target.host, &gitea.host) {
        (Some(a), Some(b)) => same_text(a.as_str(), b.as_str()),
        (None, None) => true,
        _ => false,
    };
    if same_text(target.scheme.as_str(), gitea.scheme.as_str()) && same_host && target.known_port
        == gitea.known_port {
        Some(target.text)
    } else {
        None
    }
}

/// What `plan_auth_start` returns on success.
pub open spec fn auth_start_gitea_url(headers: HeaderMap, query_url: Option<String>) -> Option<Seq<char>> {
    let from_query = match query_url {
        Some(u) => normalized_base_url(u@),
        None => None,
    };
    if from_query is Some {
        from_query
    } else {
        inferred_gitea_base_url(headers)
    }
}

/// The login-start decisions: which Gitea to log in with, the callback URL,
/// the safe page to return to and whether the login runs in a popup.
pub fn plan_auth_start(
    auth: Option<&AuthConfig>,
    headers: &HeaderMap,
    query: &crate::oauth::AuthStartQuery,
) -> (res: Result<AuthStartPlan, ApiError>)
    ensures
        auth is None ==> (res matches Err(e) && is_error(e, 503, "oauth is not configured"@)),
        auth is Some && auth_start_gitea_url(*headers, query.gitea_base_url) is None ==> (
        res matches Err(e) && is_error(e, 400, "cannot infer gitea base url"@)),
        auth is Some && auth_start_gitea_url(*headers, query.gitea_base_url) is Some
            && inferred_manager_base_url(*headers, configured_public_url(auth)) is None ==> (
        res matches Err(e) && is_error(e, 400, "cannot infer manager public url"@)),
        res matches Ok(p) ==> {
            &&& auth is Some
            &&& auth_start_gitea_url(*headers, query.gitea_base_url) == Some(p.gitea_base_url@)
            &&& inferred_manager_base_url(*headers, configured_public_url(auth)) matches Some(m)
                && p.redirect_uri@ == m + "/auth/gitea/callback"@
            &&& opt_string_view(p.return_to) == match query.return_to {
                Some(r) => safe_return_target(p.gitea_base_url@, r@),
                None => None,
            }
            &&& p.popup == match query.popup {
                Some(b) => b,
                None => false,
            }
        },
        res is Ok <==> (auth is Some && auth_start_gitea_url(*headers, query.gitea_base_url) is Some
            && inferred_manager_base_url(*headers, configured_public_url(auth)) is Some),
{
    let a = match auth {
        Some(a) => a,
        None => return Err(api_error(503, "oauth is not configured")),
    };
    let from_query = match &query.gitea_base_url {
        Some(u) => normalize_http_base_url(u.as_str()),
        None => None,
    };
    let gitea_base_url = match from_query {
        Some(u) => u,
        None => match infer_gitea_base_url(headers) {
            Some(u) => u,
            None => return Err(api_error(400, "cannot infer gitea base url")),
        },
    };
    let public_url: Option<&str> = match &a.public_url {
        Some(u) => Some(u.as_str()),
        None => None,
    };
    let manager_base_url = match infer_manager_base_url(headers, public_url) {
        Some(u) => u,
        None => return Err(api_error(400, "cannot infer manager public url")),
    };
    let redirect_uri = concat(manager_base_url.as_str(), "/auth/gitea/callback");
    let return_to = match &query.return_to {
        Some(r) => safe_return_to(gitea_base_url.as_str(), r.as_str()),
        None => None,
    };
    let popup = match query.popup {
        Some(b) => b,
        None => false,
    };
    Ok(AuthStartPlan { gitea_base_url, redirect_uri, return_to, popup })
}

/// Where the browser goes after a successful callback: nowhere for a popup
/// (it gets a page that closes itself), otherwise the page it came from or
/// Gitea itself.
pub fn callback_redirect(pending: &crate::auth::PendingOAuth) -> (res: Option<String>)
    ensures
        pending.popup ==> res is None,
        !pending.popup ==> res == Some(
            match pending.return_to {
                Some(r) => r,
                None => pending.gitea_base_url,
            },
        ),
{
    if pending.popup {
        None
    } else {
        match &pending.return_to {
            Some(r) => Some(r.clone()),
            None => Some(pending.gitea_base_url.clone()),
        }
    }
}

/// What `build_login_url` returns: the manager's login-start URL with the
/// page to return to (the `Referer`, or `/`) and the Gitea base URL.
pub open spec fn login_url_of(auth: Option<&AuthConfig>, headers: HeaderMap) -> Option<Seq<char>> {
    match inferred_manager_base_url(headers, configured_public_url(auth)) {
        Some(m) => match inferred_gitea_base_url(headers) {
            Some(g) => {
                let start = m + "/auth/gitea/start"@;
                let key = ascii_lower("referer"@);
                let return_to = if header_texts(headers).contains_key(key) {
                    header_texts(headers)[key]
                } else {
                    "/"@
                };
                if url_parses(start) {
                    Some(url_with_pair(url_with_pair(start, "return_to"@, return_to), "gitea_base_url"@, g))
                } else {
                    None
                }
            },
            None => None,
        },
        None => None,
    }
}

/// The URL that starts a login for this request, when it can be made.
pub fn build_login_url(auth: Option<&AuthConfig>, headers: &HeaderMap) -> (res: Option<String>)
    ensures
        match res {
            Some(u) => login_url_of(auth, *headers) == Some(u@),
            None => login_url_of(auth, *headers) is None,
        },
{
    let public_url: Option<&str> = match auth {
        Some(a) => match &a.public_url {
            Some(u) => Some(u.as_str()),
            None => None,
        },
        None => None,
    };
    let manager_base_url = match infer_manager_base_url(headers, public_url) {
        Some(u) => u,
        None => return None,
    };
    let return_to = match header_text(headers, "referer") {
        Some(r) => r,
        None => copy_str("/"),
    };
    let gitea_base_url = match infer_gitea_base_url(headers) {
        Some(g) => g,
        None => return None,
    };
    let start = concat(manager_base_url.as_str(), "/auth/gitea/start");
    let with_return = match url_append_pair(start.as_str(), "return_to", return_to.as_str()) {
        Some(u) => u,
        None => return None,
    };
    match url_append_pair(with_return.as_str(), "gitea_base_url", gitea_base_url.as_str()) {
        Some(u) => Some(u),
        None => None,
    }
}

/// The login URL of an "authentication required" answer: the one
/// `build_login_url` makes, or `/auth/gitea/start`.
pub fn login_url(auth: Option<&AuthConfig>, headers: &HeaderMap) -> (res: String)
    ensures
        res@ == match login_url_of(auth, *headers) {
            Some(u) => u,
            None => "/auth/gitea/start"@,
        },
{
    match build_login_url(auth, headers) {
        Some(u) => u,
        None => copy_str("/auth/gitea/start"),
    }
}

// ---------------------------------------------------------------------------
// Git credentials
// ---------------------------------------------------------------------------
/// What `bearer_token` returns: the trimmed text after `Bearer ` in the
/// `Authorization` header, when not empty.
pub open spec fn bearer_of(headers: HeaderMap) -> Option<Seq<char>> {
    let key = ascii_lower("authorization"@);
    if header_texts(headers).contains_key(key) {
        let v = header_texts(headers)[key];
        if has_prefix(v, "Bearer "@) && trim(v.skip(7)).len() > 0 {
            Some(trim(v.skip(7)))
        } else {
            None
        }
    } else {
        None
    }
}

/// The workspace token that a request presents as a bearer token.
pub fn bearer_token(headers: &HeaderMap) -> (res: Option<String>)
    ensures
        match res {
            Some(t) => bearer_of(*headers) == Some(t@),
            None => bearer_of(*headers) is None,
        },
{
    let value = match header_text(headers, "authorization") {
        Some(v) => v,
        None => return None,
    };
    if !starts_with(value.as_str(), "Bearer ") {
        return None;
    }
    proof {
        reveal_strlit("Bearer ");
    }
    let chars = chars_of(value.as_str());
    let rest = string_of(&chars, 7, chars.len());
    let token = trim_text(rest.as_str());
    proof {
        assert(rest@ =~= value@.skip(7));
    }
    if is_empty_text(token.as_str()) {
        None
    } else {
        Some(token)
    }
}

/// A repository path with its leading slashes and `.git` suffixes removed.
pub open spec fn repo_path(p: Seq<char>) -> Seq<char> {
    trim_end_seq(trim_start_char(p, '/'), ".git"@)
}

/// `host[:port]` of a clone URL, the port only when it is explicit.
pub open spec fn clone_host(c: Seq<char>) -> Seq<char> {
    let h = match url_host(c) {
        Some(h) => h,
        None => Seq::empty(),
    };
    match url_port(c) {
        Some(p) => h + ":"@ + int_text(p as int),
        None => h,
    }
}

/// What `git_request_matches_workspace` returns: the request is for http or
/// https, for the workspace's repository, and, when the workspace has a
/// clone URL, for the same scheme, host, port and path.
pub open spec fn request_matches(req: GitCredentialRequest, w: Workspace) -> bool {
    if req.protocol@ != "http"@ && req.protocol@ != "https"@ {
        false
    } else if repo_path(req.path@) != trim_end_seq(w.repo@, ".git"@) {
        false
    } else {
        match w.clone_url {
            None => true,
            Some(c) => url_parses(c@) && url_scheme(c@) == req.protocol@ && clone_host(c@)
                == req.host@ && repo_path(url_path(c@)) == repo_path(req.path@),
        }
    }
}

fn strip_repo_path(p: &str) -> (res: String)
    ensures
        res@ == repo_path(p@),
{
    let a = trim_start_matches_char(p, '/');
    proof {
        reveal_strlit(".git");
    }
    trim_end_matches_text(a.as_str(), ".git")
}

/// Whether a git credential request concerns this workspace's repository.
pub fn git_request_matches_workspace(req: &GitCredentialRequest, workspace: &Workspace) -> (res: bool)
    ensures
        res == request_matches(*req, *workspace),
{
    if !same_text(req.protocol.as_str(), "http") && !same_text(req.protocol.as_str(), "https") {
        return false;
    }
    let requested_path = strip_repo_path(req.path.as_str());
    proof {
        reveal_strlit(".git");
    }
    let repo = trim_end_matches_text(workspace.repo.as_str(), ".git");
    if !same_text(requested_path.as_str(), repo.as_str()) {
        return false;
    }
    let clone_url = match &workspace.clone_url {
        Some(c) => c,
        None => return true,
    };
    let parsed = match parse_url(clone_url.as_str()) {
        Some(u) => u,
        None => return false,
    };
    clone_url_matches(req, requested_path.as_str(), &parsed)
}

/// `host[:port]` of a parsed URL, the port only when it is explicit.
pub open spec fn parsed_host_port(u: ParsedUrl) -> Seq<char> {
    let h = match u.host {
        Some(h) => h@,
        None => Seq::empty(),
    };
    match u.port {
        Some(p) => h + ":"@ + int_text(p as int),
        None => h,
    }
}

/// What `clone_url_matches` returns: the parsed clone URL has the request's
/// scheme and `host[:port]`, and its path names the requested repository.
pub open spec fn parsed_clone_matches(req: GitCredentialRequest, requested: Seq<char>, u: ParsedUrl) -> bool {
    &&& u.scheme@ == req.protocol@
    &&& parsed_host_port(u) == req.host@
    &&& repo_path(u.path@) == requested
}

/// Whether a parsed clone URL is the one a git credential request names:
/// the same scheme and `host[:port]`, and the repository path `requested`
/// (already stripped of leading slashes and `.git`).
pub fn clone_url_matches(req: &GitCredentialRequest, requested: &str, u: &ParsedUrl) -> (res: bool)
    ensures
        res == parsed_clone_matches(*req, requested@, *u),
{
    let host = match &u.host {
        Some(h) => h.clone(),
        None => String::new(),
    };
    let clone_host = match u.port {
        Some(port) => {
            let a = concat(host.as_str(), ":");
            let digits = u64_text(port as u64);
            concat(a.as_str(), digits.as_str())
        },
        None => host,
    };
    let clone_path = strip_repo_path(u.path.as_str());
    same_text(u.scheme.as_str(), req.protocol.as_str()) && same_text(
        clone_host.as_str(),
        req.host.as_str(),
    ) && same_text(clone_path.as_str(), requested)
}

/// Whether the workspace's recorded session is still its owner's: the same
/// user id and the same Gitea.
pub fn session_matches_workspace(session: &UserSession, workspace: &Workspace) -> (res: bool)
    ensures
        res == (int_text(session.user.id as int) == workspace.user_id@
            && session.gitea_base_url@ == workspace.gitea_base_url@),
{
    let id = user_id_text(&session.user);
    same_text(id.as_str(), workspace.user_id.as_str()) && same_text(
        session.gitea_base_url.as_str(),
        workspace.gitea_base_url.as_str(),
    )
}

/// The credentials git gets once Gitea confirmed the owner's token: the
/// owner's login and token, only when Gitea described the same user.
pub fn credential_for(session: &UserSession, fetched: Option<GiteaUser>) -> (res: Option<GitCredentialResponse>)
    ensures
        match fetched {
            Some(u) => if u.id == session.user.id {
                res matches Some(c) && c.username@ == session.user.login@ && c.password@
                    == session.access_token@
            } else {
                res is None
            },
            None => res is None,
        },
{
    match fetched {
        Some(user) => {
            if user.id == session.user.id {
                Some(
                    GitCredentialResponse {
                        username: session.user.login.clone(),
                        password: session.access_token.clone(),
                    },
                )
            } else {
                None
            }
        },
        None => None,
    }
}


/// What `check_git_credential_request` decides before Gitea is asked: the
/// workspace named by the bearer token and its owner's session, or the
/// status and message of the refusal.
pub open spec fn git_credential_outcome(
    headers: HeaderMap,
    workspaces: Seq<Workspace>,
    sessions: Map<Seq<char>, UserSession>,
    req: GitCredentialRequest,
) -> Result<(Workspace, UserSession), (u16, Seq<char>)> {
    match bearer_of(headers) {
        None => Err((401u16, "workspace token is required"@)),
        Some(token) => match first_with_token(workspaces, token) {
            None => Err((401u16, "invalid workspace token"@)),
            Some(w) => if !request_matches(req, w) {
                Err((403u16, "git credential request is outside this workspace"@))
            } else {
                match entry(sessions, w.session_id@) {
                    None => Err((401u16, "workspace owner is not authenticated"@)),
                    Some(s) => if int_text(s.user.id as int) == w.user_id@
                        && s.gitea_base_url@ == w.gitea_base_url@ {
                        Ok((w, s))
                    } else {
                        Err((401u16, "workspace session does not match owner"@))
                    },
                }
            },
        },
    }
}

/// Checks a git credential request up to the point where Gitea must confirm
/// the owner's token.
pub fn check_git_credential_request(
    headers: &HeaderMap,
    store: &WorkspaceStore,
    auth: &AuthStore,
    req: &GitCredentialRequest,
) -> (res: Result<CredentialGrant, ApiError>)
    ensures
        match res {
            Ok(g) => git_credential_outcome(*headers, store.contents(), auth.session_map(), *req)
                == Ok::<(Workspace, UserSession), (u16, Seq<char>)>((g.workspace, g.session)),
            Err(e) => git_credential_outcome(*headers, store.contents(), auth.session_map(), *req)
                == Err::<(Workspace, UserSession), (u16, Seq<char>)>((e.status, e.message@)),
        },
{
    let token = match bearer_token(headers) {
        Some(t) => t,
        None => return Err(api_error(401, "workspace token is required")),
    };
    let workspace = match store.get_by_workspace_token(token.as_str()) {
        Some(w) => w,
        None => return Err(api_error(401, "invalid workspace token")),
    };
    if !git_request_matches_workspace(req, &workspace) {
        return Err(api_error(403, "git credential request is outside this workspace"));
    }
    let session = match auth.get_session(workspace.session_id.as_str()) {
        Some(s) => s,
        None => return Err(api_error(401, "workspace owner is not authenticated")),
    };
    if !session_matches_workspace(&session, &workspace) {
        return Err(api_error(401, "workspace session does not match owner"));
    }
    Ok(CredentialGrant { workspace, session })
}

/// The answer to a checked git credential request, once Gitea described the
/// owner's token (or failed to): the owner's login and token when it is the
/// same user; otherwise the owner's session is forgotten and nothing is
/// handed out.
pub fn finish_git_credentials(
    auth: &mut AuthStore,
    grant: &CredentialGrant,
    fetched: Option<GiteaUser>,
) -> (res: Option<GitCredentialResponse>)
    ensures
        fetched matches Some(u) && u.id == grant.session.user.id ==> {
            &&& res matches Some(c) && c.username@ == grant.session.user.login@ && c.password@
                == grant.session.access_token@
            &&& final(auth).session_map() == old(auth).session_map()
            &&& final(auth).checks() == old(auth).checks()
        },
        !(fetched matches Some(u) && u.id == grant.session.user.id) ==> {
            &&& res is None
            &&& final(auth).session_map() == old(auth).session_map().remove(
                grant.workspace.session_id@,
            )
            &&& final(auth).checks() == old(auth).checks().remove(grant.workspace.session_id@)
        },
        final(auth).pending() == old(auth).pending(),
{
    match credential_for(&grant.session, fetched) {
        Some(c) => Some(c),
        None => {
            auth.remove_session(grant.workspace.session_id.as_str());
            None
        },
    }
}

// ---------------------------------------------------------------------------
// Laws
// ---------------------------------------------------------------------------
/// A git credential request gets past the checks only with the token of a
/// stored workspace, for that workspace's repository (over http or https),
/// and only for the session that the workspace's owner holds.
pub proof fn lemma_credentials_stay_with_the_workspace(
    headers: HeaderMap,
    workspaces: Seq<Workspace>,
    sessions: Map<Seq<char>, UserSession>,
    req: GitCredentialRequest,
)
    ensures
        git_credential_outcome(headers, workspaces, sessions, req) matches Ok((w, s)) ==> {
            &&& bearer_of(headers) == Some(w.workspace_token@)
            &&& workspaces.contains(w)
            &&& (req.protocol@ == "http"@ || req.protocol@ == "https"@)
            &&& repo_path(req.path@) == trim_end_seq(w.repo@, ".git"@)
            &&& sessions.dom().contains(w.session_id@)
            &&& sessions[w.session_id@] == s
            &&& int_text(s.user.id as int) == w.user_id@
        },
{
    if let Some(token) = bearer_of(headers) {
        crate::store::lemma_first_with_token(workspaces, token);
    }
}


/// A user's workspace list shows only that user's workspaces, whatever the
/// query asked for.
pub proof fn lemma_listing_shows_only_own(s: Seq<Workspace>, query: WorkspaceQuery, user_id: String)
    ensures
        forall|i: int|
            0 <= i < matching(s, WorkspaceQuery { user_id: Some(user_id), ..query }).len() ==> (
            #[trigger] matching(s, WorkspaceQuery { user_id: Some(user_id), ..query })[i]).user_id@
                == user_id@,
{
    lemma_list_is_matching(s, WorkspaceQuery { user_id: Some(user_id), ..query });
}

/// After login the browser is sent back only to a path of this site (not a
/// `//host` reference) or to a page of the Gitea origin it logged in with.
pub proof fn lemma_return_target_stays_on_site(gitea_base_url: Seq<char>, value: Seq<char>)
    ensures
        safe_return_target(gitea_base_url, value) matches Some(r) ==> {
            ||| (r == value && has_prefix(value, "/"@) && !has_prefix(value, "//"@))
            ||| {
                &&& url_parses(value)
                &&& url_scheme(value) == url_scheme(gitea_base_url)
                &&& url_host(value) == url_host(gitea_base_url)
                &&& url_known_port(value) == url_known_port(gitea_base_url)
                &&& r == url_serialization(value)
            }
        },
{
}


/// Whenever the manager's and Gitea's base URLs can both be inferred and the
/// login-start URL parses, a login URL is built: the start URL with
/// `return_to` set to the `Referer` text, or to `/` when there is none, and
/// then `gitea_base_url` set to Gitea's base URL.
pub proof fn lemma_login_url_is_built(
    auth: Option<&AuthConfig>,
    headers: HeaderMap,
    manager: Seq<char>,
    gitea: Seq<char>,
)
    requires
        inferred_manager_base_url(headers, configured_public_url(auth)) == Some(manager),
        inferred_gitea_base_url(headers) == Some(gitea),
        url_parses(manager + "/auth/gitea/start"@),
    ensures
        login_url_of(auth, headers) == Some(
            url_with_pair(
                url_with_pair(
                    manager + "/auth/gitea/start"@,
                    "return_to"@,
                    match crate::http_headers::header_text_of(headers, "referer"@) {
                        Some(r) => r,
                        None => "/"@,
                    },
                ),
                "gitea_base_url"@,
                gitea,
            ),
        ),
{
}

} // verus!
