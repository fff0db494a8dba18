//! Workspaces: their record, creation, status changes and queries.
use vstd::prelude::*;

use crate::naming::{data_suffix, name_base, WorkspaceIdentity};
use crate::sources::{
    all_alphanumeric, is_lower_hex, new_uuid_simple, random_alphanumeric, utc_now, UtcTime,
};
use crate::text::{concat, copy_str, same_text};

verus! {

#[derive(Clone, Copy, PartialEq, Eq, Structural, Debug)]
pub enum WorkspaceStatus {
    Creating,
    Running,
    Stopped,
    Error,
}

pub struct Workspace {
    pub exists: bool,
    pub workspace_id: String,
    pub workspace_token: String,
    pub session_id: String,
    pub gitea_base_url: String,
    pub user_id: String,
    pub repo: String,
    pub branch: String,
    pub clone_url: Option<String>,
    pub status: WorkspaceStatus,
    pub url: Option<String>,
    pub container_ip: Option<String>,
    pub container_name: String,
    pub code_server_password: Option<String>,
    pub volume_name: String,
    pub created_at: UtcTime,
    pub updated_at: UtcTime,
}

pub struct CreateWorkspaceRequest {
    pub repo: String,
    pub branch: Option<String>,
    pub clone_url: Option<String>,
}

pub struct WorkspaceQuery {
    pub repo: Option<String>,
    pub branch: Option<String>,
    pub user_id: Option<String>,
}

// ---------------------------------------------------------------------------
// Specifications
// ---------------------------------------------------------------------------
/// A query field that is absent matches anything; a present one matches
/// the same text.
pub open spec fn field_matches(q: Option<String>, v: Seq<char>) -> bool {
    match q {
        Some(x) => x@ == v,
        None => true,
    }
}

/// What `matches_query` returns.
pub open spec fn query_matches(w: Workspace, q: WorkspaceQuery) -> bool {
    &&& field_matches(q.repo, w.repo@)
    &&& field_matches(q.branch, w.branch@)
    &&& field_matches(q.user_id, w.user_id@)
}

/// A workspace id as `new_for_user` makes them: `ws_` and 32 lowercase
/// hexadecimal digits.
pub open spec fn is_generated_id(id: Seq<char>) -> bool {
    &&& id.len() == 35
    &&& id.take(3) == "ws_"@
    &&& forall|i: int| 3 <= i < 35 ==> is_lower_hex(#[trigger] id[i])
}

/// `w` is the workspace that `new_for_user` builds from these inputs, for
/// the id, token, password and time that it drew.
pub open spec fn built_from(
    w: Workspace,
    req: CreateWorkspaceRequest,
    user_id: Seq<char>,
    session_id: Seq<char>,
    gitea_base_url: Seq<char>,
) -> bool {
    &&& w.exists
    &&& w.session_id@ == session_id
    &&& w.gitea_base_url@ == gitea_base_url
    &&& w.user_id@ == user_id
    &&& w.repo@ == req.repo@
    &&& w.branch@ == (match req.branch {
        Some(b) => b@,
        None => "main"@,
    })
    &&& w.clone_url == req.clone_url
    &&& w.status == WorkspaceStatus::Creating
    &&& w.url is None
    &&& w.container_ip is None
    &&& w.container_name@ == name_base(user_id, req.repo@, w.workspace_id@)
    &&& w.volume_name@ == name_base(user_id, req.repo@, w.workspace_id@) + data_suffix()
    &&& w.created_at == w.updated_at
}

// ---------------------------------------------------------------------------
// Copies with exact contracts
// ---------------------------------------------------------------------------
pub fn copy_opt(o: &Option<String>) -> (res: Option<String>)
    ensures
        res == *o,
{
    match o {
        Some(s) => Some(s.clone()),
        None => None,
    }
}

impl Workspace {
    /// An exact copy of this record.
    pub fn duplicate(&self) -> (res: Workspace)
        ensures
            res == *self,
    {
        Workspace {
            exists: self.exists,
            workspace_id: self.workspace_id.clone(),
            workspace_token: self.workspace_token.clone(),
            session_id: self.session_id.clone(),
            gitea_base_url: self.gitea_base_url.clone(),
            user_id: self.user_id.clone(),
            repo: self.repo.clone(),
            branch: self.branch.clone(),
            clone_url: copy_opt(&self.clone_url),
            status: self.status,
            url: copy_opt(&self.url),
            container_ip: copy_opt(&self.container_ip),
            container_name: self.container_name.clone(),
            code_server_password: copy_opt(&self.code_server_password),
            volume_name: self.volume_name.clone(),
            created_at: self.created_at,
            updated_at: self.updated_at,
        }
    }

    /// A new workspace of `user_id` for the requested repository, with the
    /// given generated id digits, token, code-server password and time.
    pub fn from_parts(
        req: CreateWorkspaceRequest,
        user_id: String,
        session_id: String,
        gitea_base_url: String,
        id_digits: &str,
        workspace_token: String,
        code_server_password: String,
        now: UtcTime,
    ) -> (res: Workspace)
        ensures
            built_from(res, req, user_id@, session_id@, gitea_base_url@),
            res.workspace_id@ == "ws_"@ + id_digits@,
            res.workspace_token@ == workspace_token@,
            res.code_server_password == Some(code_server_password),
            res.created_at == now,
    {
        let workspace_id = concat("ws_", id_digits);
        let branch = match req.branch {
            Some(b) => b,
            None => copy_str("main"),
        };
        let identity = WorkspaceIdentity {
            workspace_id: workspace_id.clone(),
            user_id: user_id.clone(),
            repo: req.repo.clone(),
        };
        let names = identity.names();
        Workspace {
            exists: true,
            workspace_id,
            workspace_token,
            session_id,
            gitea_base_url,
            user_id,
            repo: req.repo,
            branch,
            clone_url: req.clone_url,
            status: WorkspaceStatus::Creating,
            url: None,
            container_ip: None,
            container_name: names.container_name,
            code_server_password: Some(code_server_password),
            volume_name: names.volume_name,
            created_at: now,
            updated_at: now,
        }
    }

    /// A new workspace of `user_id` for the requested repository, with a
    /// fresh id, a 48-character token and an 18-character code-server
    /// password, created now.
    pub fn new_for_user(
        req: CreateWorkspaceRequest,
        user_id: String,
        session_id: String,
        gitea_base_url: String,
    ) -> (res: Workspace)
        ensures
            built_from(res, req, user_id@, session_id@, gitea_base_url@),
            is_generated_id(res.workspace_id@),
            res.workspace_token@.len() == 48,
            all_alphanumeric(res.workspace_token@),
            res.code_server_password matches Some(p) && p@.len() == 18 && all_alphanumeric(p@),
    {
        let now = utc_now();
        let digits = new_uuid_simple();
        let token = random_alphanumeric(48);
        let password = random_alphanumeric(18);
        let w = Workspace::from_parts(
            req,
            user_id,
            session_id,
            gitea_base_url,
            digits.as_str(),
            token,
            password,
            now,
        );
        proof {
            reveal_strlit("ws_");
            assert(w.workspace_id@.take(3) =~= "ws_"@);
            assert forall|i: int| 3 <= i < 35 implies is_lower_hex(#[trigger] w.workspace_id@[i]) by {
                assert(w.workspace_id@[i] == digits@[i - 3]);
            }
        }
        w
    }

    /// Sets the status at time `now`; a given URL replaces the old one.
    pub fn mark_at(&mut self, status: WorkspaceStatus, url: Option<String>, now: UtcTime)
        ensures
            *final(self) == (Workspace {
                status,
                url: if url is Some {
                    url
                } else {
                    old(self).url
                },
                updated_at: now,
                ..*old(self)
            }),
    {
        self.status = status;
        if url.is_some() {
            self.url = url;
        }
        self.updated_at = now;
    }

    /// Sets the status now; a given URL replaces the old one.
    pub fn mark(&mut self, status: WorkspaceStatus, url: Option<String>)
        ensures
            *final(self) == (Workspace {
                status,
                url: if url is Some {
                    url
                } else {
                    old(self).url
                },
                updated_at: final(self).updated_at,
                ..*old(self)
            }),
    {
        let now = utc_now();
        self.mark_at(status, url, now);
    }

    /// Records the container's address.
    pub fn set_container_ip(&mut self, container_ip: Option<String>)
        ensures
            *final(self) == (Workspace { container_ip, ..*old(self) }),
    {
        self.container_ip = container_ip;
    }

    /// Whether this workspace satisfies every field that the query sets.
    pub fn matches_query(&self, query: &WorkspaceQuery) -> (res: bool)
        ensures
            res == query_matches(*self, *query),
    {
        let repo_ok = match &query.repo {
            Some(repo) => same_text(repo.as_str(), self.repo.as_str()),
            None => true,
        };
        let branch_ok = match &query.branch {
            Some(branch) => same_text(branch.as_str(), self.branch.as_str()),
            None => true,
        };
        let user_ok = match &query.user_id {
            Some(user_id) => same_text(user_id.as_str(), self.user_id.as_str()),
            None => true,
        };
        repo_ok && branch_ok && user_ok
    }
}


/// A workspace matches a query exactly when its repository, branch and
/// owner equal every field that the query sets; a field left unset filters
/// nothing.
pub proof fn lemma_query_filters_each_field(w: Workspace, q: WorkspaceQuery)
    ensures
        query_matches(w, q) <==> {
            &&& q.repo is Some ==> w.repo@ == q.repo->0@
            &&& q.branch is Some ==> w.branch@ == q.branch->0@
            &&& q.user_id is Some ==> w.user_id@ == q.user_id->0@
        },
{
}

} // verus!
