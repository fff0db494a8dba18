//! The set of workspaces, keyed by workspace id.
use vstd::prelude::*;

use crate::workspace::{
    copy_opt, query_matches, CreateWorkspaceRequest, Workspace, WorkspaceQuery, WorkspaceStatus,
};
use crate::text::{lemma_text_less_order, same_text, text_before, text_less};

verus! {

/// The workspaces this service knows, at most one per workspace id, in the
/// order they were first stored. They are kept in a `Vec` rather than a map
/// keyed by id: the lookup by workspace token returns the first workspace
/// that holds the token, and listings come out in order; in a hash map both
/// would follow the order in which the map is walked, which depends on the
/// hasher's seed and which no contract can name.
pub struct WorkspaceStore {
    workspaces: Vec<Workspace>,
}

// ---------------------------------------------------------------------------
// Specifications
// ---------------------------------------------------------------------------
/// No two workspaces share an id.
pub open spec fn ids_distinct(s: Seq<Workspace>) -> bool {
    forall|i: int, j: int|
        #![trigger s[i], s[j]]
        0 <= i < s.len() && 0 <= j < s.len() && i != j ==> s[i].workspace_id@ != s[j].workspace_id@
}

/// The position of the workspace with this id.
pub open spec fn position_of(s: Seq<Workspace>, id: Seq<char>) -> Option<int>
    decreases s.len(),
{
    if s.len() == 0 {
        None
    } else if s.last().workspace_id@ == id {
        Some(s.len() - 1)
    } else {
        position_of(s.drop_last(), id)
    }
}

/// The workspace with this id.
pub open spec fn lookup(s: Seq<Workspace>, id: Seq<char>) -> Option<Workspace> {
    match position_of(s, id) {
        Some(i) => Some(s[i]),
        None => None,
    }
}

/// The first workspace whose token is `token`.
pub open spec fn first_with_token(s: Seq<Workspace>, token: Seq<char>) -> Option<Workspace>
    decreases s.len(),
{
    if s.len() == 0 {
        None
    } else if s[0].workspace_token@ == token {
        Some(s[0])
    } else {
        first_with_token(s.drop_first(), token)
    }
}

/// The workspaces that match the query, in order.
pub open spec fn matching(s: Seq<Workspace>, q: WorkspaceQuery) -> Seq<Workspace>
    decreases s.len(),
{
    if s.len() == 0 {
        Seq::empty()
    } else if query_matches(s.last(), q) {
        matching(s.drop_last(), q).push(s.last())
    } else {
        matching(s.drop_last(), q)
    }
}

/// The sequence with `w` stored under its id: replacing the workspace of
/// that id in place, or added at the end.
pub open spec fn stored(s: Seq<Workspace>, w: Workspace) -> Seq<Workspace> {
    match position_of(s, w.workspace_id@) {
        Some(i) => s.update(i, w),
        None => s.push(w),
    }
}

/// The sequence without the workspace of this id.
pub open spec fn without(s: Seq<Workspace>, id: Seq<char>) -> Seq<Workspace> {
    match position_of(s, id) {
        Some(i) => s.remove(i),
        None => s,
    }
}

/// Ordered by workspace id, ascending.
pub open spec fn ids_ascending(s: Seq<Workspace>) -> bool {
    forall|i: int, j: int|
        #![trigger s[i], s[j]]
        0 <= i < j < s.len() ==> text_less(s[i].workspace_id@, s[j].workspace_id@)
}

// ---------------------------------------------------------------------------
// Lemmas
// ---------------------------------------------------------------------------
pub proof fn lemma_position_of(s: Seq<Workspace>, id: Seq<char>)
    ensures
        position_of(s, id) matches Some(i) ==> 0 <= i < s.len() && s[i].workspace_id@ == id,
        position_of(s, id) is None ==> forall|i: int|
            0 <= i < s.len() ==> (#[trigger] s[i]).workspace_id@ != id,
    decreases s.len(),
{
    if s.len() > 0 {
        lemma_position_of(s.drop_last(), id);
        if s.last().workspace_id@ != id {
            assert forall|i: int| 0 <= i < s.len() - 1 implies s[i] == s.drop_last()[i] by {}
        }
    }
}

/// In a store of distinct ids, the workspace at `i` is found by its id.
pub proof fn lemma_position_unique(s: Seq<Workspace>, i: int)
    requires
        ids_distinct(s),
        0 <= i < s.len(),
    ensures
        position_of(s, s[i].workspace_id@) == Some(i),
{
    lemma_position_of(s, s[i].workspace_id@);
    if let Some(k) = position_of(s, s[i].workspace_id@) {
        if k != i {
            assert(s[k].workspace_id@ != s[i].workspace_id@);
        }
    }
}

/// Storing keeps ids distinct, makes `w` the workspace of its id and
/// leaves the other ids as they were.
pub proof fn lemma_stored(s: Seq<Workspace>, w: Workspace)
    requires
        ids_distinct(s),
    ensures
        ids_distinct(stored(s, w)),
        forall|id: Seq<char>|
            #![trigger lookup(stored(s, w), id)]
            lookup(stored(s, w), id) == if id == w.workspace_id@ {
                Some(w)
            } else {
                lookup(s, id)
            },
{
    lemma_position_of(s, w.workspace_id@);
    let t = stored(s, w);
    match position_of(s, w.workspace_id@) {
        Some(i) => {
            assert forall|a: int, b: int|
                0 <= a < t.len() && 0 <= b < t.len() && a != b implies #[trigger] t[a].workspace_id@
                != #[trigger] t[b].workspace_id@ by {
                if a != i && b != i {
                    assert(t[a] == s[a] && t[b] == s[b]);
                } else if a == i {
                    assert(t[b] == s[b]);
                    assert(s[i].workspace_id@ != s[b].workspace_id@);
                } else {
                    assert(t[a] == s[a]);
                    assert(s[a].workspace_id@ != s[i].workspace_id@);
                }
            }
        },
        None => {
            assert forall|a: int, b: int|
                0 <= a < t.len() && 0 <= b < t.len() && a != b implies #[trigger] t[a].workspace_id@
                != #[trigger] t[b].workspace_id@ by {
                if a < s.len() && b < s.len() {
                    assert(t[a] == s[a] && t[b] == s[b]);
                } else if a == s.len() {
                    assert(t[b] == s[b]);
                } else {
                    assert(t[a] == s[a]);
                }
            }
        },
    }
    assert forall|id: Seq<char>| #[trigger]
        lookup(stored(s, w), id) == if id == w.workspace_id@ {
            Some(w)
        } else {
            lookup(s, id)
        } by {
        lemma_position_of(t, id);
        lemma_position_of(s, id);
        match position_of(t, id) {
            Some(k) => {
                lemma_position_unique(t, k);
                if id != w.workspace_id@ {
                    assert(k < s.len() && t[k] == s[k]) by {
                        match position_of(s, w.workspace_id@) {
                            Some(i) => {
                                assert(k != i);
                            },
                            None => {
                                assert(k != s.len());
                            },
                        }
                    }
                    lemma_position_unique(s, k);
                } else {
                    match position_of(s, w.workspace_id@) {
                        Some(i) => {
                            assert(t[i] == w);
                            lemma_position_unique(t, i);
                        },
                        None => {
                            assert(t[s.len() as int] == w);
                            lemma_position_unique(t, s.len() as int);
                        },
                    }
                }
            },
            None => {
                if id == w.workspace_id@ {
                    match position_of(s, w.workspace_id@) {
                        Some(i) => {
                            assert(t[i].workspace_id@ == id);
                        },
                        None => {
                            assert(t[s.len() as int].workspace_id@ == id);
                        },
                    }
                } else {
                    if let Some(k) = position_of(s, id) {
                        match position_of(s, w.workspace_id@) {
                            Some(i) => {
                                assert(k != i);
                                assert(t[k] == s[k]);
                            },
                            None => {
                                assert(t[k] == s[k]);
                            },
                        }
                    }
                }
            },
        }
    }
}

/// Looking an id up among the first `i + 1` entries of a list.
proof fn lemma_lookup_take_step(l: Seq<Workspace>, i: int, id: Seq<char>)
    requires
        0 <= i < l.len(),
    ensures
        lookup(l.take(i + 1), id) == if id == l[i].workspace_id@ {
            Some(l[i])
        } else {
            lookup(l.take(i), id)
        },
{
    assert(l.take(i + 1).drop_last() =~= l.take(i));
    if id != l[i].workspace_id@ {
        lemma_position_of(l.take(i), id);
        if let Some(k) = position_of(l.take(i), id) {
            assert(l.take(i + 1)[k] == l.take(i)[k]);
        }
    }
}

proof fn lemma_matching_push(s: Seq<Workspace>, w: Workspace, q: WorkspaceQuery)
    ensures
        matching(s.push(w), q) == if query_matches(w, q) {
            matching(s, q).push(w)
        } else {
            matching(s, q)
        },
{
    assert(s.push(w).drop_last() =~= s);
}

/// The workspace found by a token holds that token and is stored.
pub proof fn lemma_first_with_token(s: Seq<Workspace>, token: Seq<char>)
    ensures
        first_with_token(s, token) matches Some(w) ==> w.workspace_token@ == token && s.contains(w),
    decreases s.len(),
{
    if s.len() > 0 && s[0].workspace_token@ != token {
        lemma_first_with_token(s.drop_first(), token);
        if let Some(w) = first_with_token(s.drop_first(), token) {
            let k = choose|k: int| 0 <= k < s.drop_first().len() && s.drop_first()[k] == w;
            assert(s[k + 1] == w);
        }
    } else if s.len() > 0 {
        assert(s[0] == s[0]);
    }
}

/// In a sequence of distinct ids, the workspace found by an id is the one
/// the sequence holds with that id.
proof fn lemma_lookup_distinct(s: Seq<Workspace>, id: Seq<char>, w: Workspace)
    requires
        ids_distinct(s),
    ensures
        lookup(s, id) matches Some(v) ==> s.contains(v) && v.workspace_id@ == id,
        s.contains(w) && w.workspace_id@ == id ==> lookup(s, id) == Some(w),
{
    lemma_position_of(s, id);
    if s.contains(w) && w.workspace_id@ == id {
        let k = choose|k: int| 0 <= k < s.len() && s[k] == w;
        lemma_position_unique(s, k);
    }
}

proof fn lemma_first_with_token_skip(s: Seq<Workspace>, token: Seq<char>, i: int)
    requires
        0 <= i < s.len(),
        s[i].workspace_token@ != token,
    ensures
        first_with_token(s.skip(i), token) == first_with_token(s.skip(i + 1), token),
{
    assert(s.skip(i).drop_first() =~= s.skip(i + 1));
}

// ---------------------------------------------------------------------------
// Executable functions
// ---------------------------------------------------------------------------
impl WorkspaceStore {
    /// The store's contents, in order.
    pub closed spec fn contents(&self) -> Seq<Workspace> {
        self.workspaces@
    }

    /// The store keeps at most one workspace per id.
    pub open spec fn wf(&self) -> bool {
        ids_distinct(self.contents())
    }

    /// An empty store.
    pub fn new() -> (res: WorkspaceStore)
        ensures
            res.wf(),
            res.contents() == Seq::<Workspace>::empty(),
    {
        WorkspaceStore { workspaces: Vec::new() }
    }

    /// A store holding these workspaces; of two with the same id, the later
    /// one is kept.
    pub fn from_workspaces(list: Vec<Workspace>) -> (res: WorkspaceStore)
        ensures
            res.wf(),
            forall|id: Seq<char>|
                #![trigger lookup(res.contents(), id)]
                lookup(res.contents(), id) == lookup(list@, id),
    {
        let mut store = WorkspaceStore::new();
        let mut i: usize = 0;
        proof {
            assert forall|id: Seq<char>| #[trigger] lookup(store.contents(), id) == lookup(
                list@.take(0),
                id,
            ) by {
                assert(list@.take(0) =~= Seq::<Workspace>::empty());
            }
        }
        while i < list.len()
            invariant
                i <= list@.len(),
                store.wf(),
                forall|id: Seq<char>|
                    #![trigger lookup(store.contents(), id)]
                    lookup(store.contents(), id) == lookup(list@.take(i as int), id),
            decreases list@.len() - i,
        {
            let w = list[i].duplicate();
            let ghost before = store.contents();
            proof {
                lemma_stored(before, w);
            }
            store.insert(w);
            proof {
                assert forall|id: Seq<char>| #[trigger] lookup(store.contents(), id) == lookup(
                    list@.take(i + 1),
                    id,
                ) by {
                    lemma_lookup_take_step(list@, i as int, id);
                    assert(lookup(stored(before, w), id) == lookup(store.contents(), id));
                }
            }
            i = i + 1;
        }
        proof {
            assert(list@.take(list@.len() as int) =~= list@);
        }
        store
    }

    /// Stores `w` under its id, replacing the workspace stored there.
    pub fn insert(&mut self, w: Workspace)
        requires
            old(self).wf(),
        ensures
            final(self).wf(),
            final(self).contents() == stored(old(self).contents(), w),
    {
        proof {
            lemma_position_of(self.workspaces@, w.workspace_id@);
        }
        match self.find(w.workspace_id.as_str()) {
            Some(i) => {
                self.workspaces.set(i, w);
            },
            None => {
                self.workspaces.push(w);
            },
        }
    }

    /// The position of the workspace with this id.
    fn find(&self, workspace_id: &str) -> (res: Option<usize>)
        ensures
            match res {
                Some(i) => position_of(self.contents(), workspace_id@) == Some(i as int),
                None => position_of(self.contents(), workspace_id@) is None,
            },
    {
        let mut k: usize = self.workspaces.len();
        proof {
            assert(self.workspaces@.take(k as int) =~= self.workspaces@);
        }
        while k > 0
            invariant
                k <= self.workspaces@.len(),
                position_of(self.workspaces@, workspace_id@) == position_of(
                    self.workspaces@.take(k as int),
                    workspace_id@,
                ),
            decreases k,
        {
            proof {
                assert(self.workspaces@.take(k as int).drop_last() =~= self.workspaces@.take(k - 1));
            }
            if same_text(self.workspaces[k - 1].workspace_id.as_str(), workspace_id) {
                return Some(k - 1);
            }
            k = k - 1;
        }
        None
    }

    /// Creates a workspace of `user_id` for the requested repository and
    /// stores it.
    pub fn create(
        &mut self,
        req: CreateWorkspaceRequest,
        user_id: String,
        session_id: String,
        gitea_base_url: String,
    ) -> (res: Workspace)
        requires
            old(self).wf(),
        ensures
            final(self).wf(),
            crate::workspace::built_from(res, req, user_id@, session_id@, gitea_base_url@),
            crate::workspace::is_generated_id(res.workspace_id@),
            res.workspace_token@.len() == 48,
            crate::sources::all_alphanumeric(res.workspace_token@),
            res.code_server_password matches Some(p) && p@.len() == 18
                && crate::sources::all_alphanumeric(p@),
            final(self).contents() == stored(old(self).contents(), res),
    {
        let workspace = Workspace::new_for_user(req, user_id, session_id, gitea_base_url);
        self.insert(workspace.duplicate());
        workspace
    }

    /// The workspace with this id.
    pub fn get(&self, workspace_id: &str) -> (res: Option<Workspace>)
        ensures
            res == lookup(self.contents(), workspace_id@),
    {
        proof {
            lemma_position_of(self.workspaces@, workspace_id@);
        }
        match self.find(workspace_id) {
            Some(i) => Some(self.workspaces[i].duplicate()),
            None => None,
        }
    }

    /// The workspaces that match the query, in store order.
    pub fn list(&self, query: &WorkspaceQuery) -> (res: Vec<Workspace>)
        ensures
            res@ == matching(self.contents(), *query),
    {
        let mut out: Vec<Workspace> = Vec::new();
        let mut i: usize = 0;
        while i < self.workspaces.len()
            invariant
                i <= self.workspaces@.len(),
                out@ == matching(self.workspaces@.take(i as int), *query),
            decreases self.workspaces@.len() - i,
        {
            proof {
                assert(self.workspaces@.take(i + 1) =~= self.workspaces@.take(i as int).push(
                    self.workspaces@[i as int],
                ));
                lemma_matching_push(self.workspaces@.take(i as int), self.workspaces@[i as int], *query);
            }
            if self.workspaces[i].matches_query(query) {
                out.push(self.workspaces[i].duplicate());
            }
            i = i + 1;
        }
        proof {
            assert(self.workspaces@.take(i as int) =~= self.workspaces@);
        }
        out
    }

    /// The first workspace whose token is `token`.
    pub fn get_by_workspace_token(&self, token: &str) -> (res: Option<Workspace>)
        ensures
            res == first_with_token(self.contents(), token@),
    {
        let mut i: usize = 0;
        proof {
            assert(self.workspaces@.skip(0) =~= self.workspaces@);
        }
        while i < self.workspaces.len()
            invariant
                i <= self.workspaces@.len(),
                first_with_token(self.workspaces@, token@) == first_with_token(
                    self.workspaces@.skip(i as int),
                    token@,
                ),
            decreases self.workspaces@.len() - i,
        {
            if same_text(self.workspaces[i].workspace_token.as_str(), token) {
                proof {
                    assert(self.workspaces@.skip(i as int)[0] == self.workspaces@[i as int]);
                }
                return Some(self.workspaces[i].duplicate());
            }
            proof {
                lemma_first_with_token_skip(self.workspaces@, token@, i as int);
            }
            i = i + 1;
        }
        proof {
            assert(self.workspaces@.skip(i as int) =~= Seq::<Workspace>::empty());
        }
        None
    }

    /// Sets the status of the workspace with this id (a given URL replaces
    /// the old one) and returns the updated workspace.
    pub fn mark(&mut self, workspace_id: &str, status: WorkspaceStatus, url: Option<String>) -> (res:
        Option<Workspace>)
        requires
            old(self).wf(),
        ensures
            final(self).wf(),
            match lookup(old(self).contents(), workspace_id@) {
                Some(w) => res matches Some(n) && n == (Workspace {
                    status,
                    url: if url is Some {
                        url
                    } else {
                        w.url
                    },
                    updated_at: n.updated_at,
                    ..w
                }) && final(self).contents() == stored(old(self).contents(), n),
                None => res is None && final(self).contents() == old(self).contents(),
            },
    {
        proof {
            lemma_position_of(self.workspaces@, workspace_id@);
        }
        match self.find(workspace_id) {
            Some(i) => {
                let mut w = self.workspaces[i].duplicate();
                w.mark(status, url);
                proof {
                    lemma_position_unique(self.workspaces@, i as int);
                }
                self.insert(w.duplicate());
                Some(w)
            },
            None => None,
        }
    }

    /// Records the container address of the workspace with this id.
    pub fn set_container_ip(&mut self, workspace_id: &str, container_ip: Option<String>) -> (res:
        Option<Workspace>)
        requires
            old(self).wf(),
        ensures
            final(self).wf(),
            match lookup(old(self).contents(), workspace_id@) {
                Some(w) => res == Some(Workspace { container_ip, ..w }) && final(self).contents()
                    == stored(old(self).contents(), Workspace { container_ip, ..w }),
                None => res is None && final(self).contents() == old(self).contents(),
            },
    {
        proof {
            lemma_position_of(self.workspaces@, workspace_id@);
        }
        match self.find(workspace_id) {
            Some(i) => {
                let mut w = self.workspaces[i].duplicate();
                w.set_container_ip(container_ip);
                self.insert(w.duplicate());
                Some(w)
            },
            None => None,
        }
    }

    /// Sets the code-server password of the workspace with this id.
    pub fn set_code_server_password(&mut self, workspace_id: &str, password: Option<String>) -> (res:
        Option<Workspace>)
        requires
            old(self).wf(),
        ensures
            final(self).wf(),
            match lookup(old(self).contents(), workspace_id@) {
                Some(w) => res == Some(Workspace { code_server_password: password, ..w })
                    && final(self).contents() == stored(
                    old(self).contents(),
                    Workspace { code_server_password: password, ..w },
                ),
                None => res is None && final(self).contents() == old(self).contents(),
            },
    {
        proof {
            lemma_position_of(self.workspaces@, workspace_id@);
        }
        match self.find(workspace_id) {
            Some(i) => {
                let mut w = self.workspaces[i].duplicate();
                w.code_server_password = password;
                self.insert(w.duplicate());
                Some(w)
            },
            None => None,
        }
    }

    /// Removes the workspace with this id and returns it.
    pub fn remove(&mut self, workspace_id: &str) -> (res: Option<Workspace>)
        requires
            old(self).wf(),
        ensures
            final(self).wf(),
            res == lookup(old(self).contents(), workspace_id@),
            final(self).contents() == without(old(self).contents(), workspace_id@),
    {
        proof {
            lemma_position_of(self.workspaces@, workspace_id@);
        }
        match self.find(workspace_id) {
            Some(i) => {
                let ghost before = self.workspaces@;
                let w = self.workspaces.remove(i);
                proof {
                    let t = self.workspaces@;
                    assert forall|a: int, b: int|
                        0 <= a < t.len() && 0 <= b < t.len() && a != b implies #[trigger] t[a].workspace_id@
                        != #[trigger] t[b].workspace_id@ by {
                        let a0 = if a < i { a } else { a + 1 };
                        let b0 = if b < i { b } else { b + 1 };
                        assert(t[a] == before[a0] && t[b] == before[b0]);
                    }
                }
                Some(w)
            },
            None => None,
        }
    }

    /// The workspaces in the order they are saved to disk: by id, ascending.
    pub fn persisted_order(&self) -> (res: Vec<Workspace>)
        requires
            self.wf(),
        ensures
            ids_ascending(res@),
            res@.to_multiset() == self.contents().to_multiset(),
    {
        broadcast use vstd::seq_lib::group_to_multiset_ensures;

        let ghost src = self.workspaces@;
        let mut out: Vec<Workspace> = Vec::new();
        let mut i: usize = 0;
        while i < self.workspaces.len()
            invariant
                src == self.workspaces@,
                ids_distinct(src),
                i <= src.len(),
                ids_ascending(out@),
                out@.to_multiset() == src.take(i as int).to_multiset(),
                forall|a: int|
                    0 <= a < out@.len() ==> exists|j: int|
                        0 <= j < i && #[trigger] out@[a] == src[j],
            decreases src.len() - i,
        {
            let w = self.workspaces[i].duplicate();
            let mut k: usize = 0;
            while k < out.len() && text_before(
                out[k].workspace_id.as_str(),
                w.workspace_id.as_str(),
            )
                invariant
                    k <= out@.len(),
                    forall|a: int|
                        0 <= a < k ==> text_less(
                            (#[trigger] out@[a]).workspace_id@,
                            w.workspace_id@,
                        ),
                decreases out@.len() - k,
            {
                k = k + 1;
            }
            proof {
                if k < out@.len() {
                    let j = choose|j: int| 0 <= j < i && out@[k as int] == src[j];
                    assert(src[j].workspace_id@ != src[i as int].workspace_id@);
                    lemma_text_less_order(out@[k as int].workspace_id@, w.workspace_id@, w.workspace_id@);
                }
                assert forall|b: int| k <= b < out@.len() implies text_less(
                    w.workspace_id@,
                    (#[trigger] out@[b]).workspace_id@,
                ) by {
                    if b > k {
                        assert(text_less(out@[k as int].workspace_id@, out@[b].workspace_id@));
                        lemma_text_less_order(
                            w.workspace_id@,
                            out@[k as int].workspace_id@,
                            out@[b].workspace_id@,
                        );
                    }
                }
                vstd::seq_lib::to_multiset_insert(out@, k as int, w);
                assert(src.take(i + 1) =~= src.take(i as int).push(src[i as int]));
                vstd::seq_lib::to_multiset_build(src.take(i as int), src[i as int]);
            }
            let ghost before = out@;
            out.insert(k, w);
            proof {
                assert forall|a: int, b: int| 0 <= a < b < out@.len() implies text_less(
                    (#[trigger] out@[a]).workspace_id@,
                    (#[trigger] out@[b]).workspace_id@,
                ) by {
                    if a < k && b < k {
                        assert(out@[a] == before[a] && out@[b] == before[b]);
                    } else if a < k && b == k {
                        assert(out@[a] == before[a]);
                    } else if a < k && b > k {
                        assert(out@[a] == before[a] && out@[b] == before[b - 1]);
                        lemma_text_less_order(
                            before[a].workspace_id@,
                            w.workspace_id@,
                            before[b - 1].workspace_id@,
                        );
                    } else if a == k {
                        assert(out@[b] == before[b - 1]);
                    } else {
                        assert(out@[a] == before[a - 1] && out@[b] == before[b - 1]);
                    }
                }
                assert forall|a: int| 0 <= a < out@.len() implies exists|j: int|
                    0 <= j < i + 1 && #[trigger] out@[a] == src[j] by {
                    if a < k {
                        assert(out@[a] == before[a]);
                        let j = choose|j: int| 0 <= j < i && before[a] == src[j];
                        assert(out@[a] == src[j]);
                    } else if a == k {
                        assert(out@[a] == src[i as int]);
                    } else {
                        assert(out@[a] == before[a - 1]);
                        let j = choose|j: int| 0 <= j < i && before[a - 1] == src[j];
                        assert(out@[a] == src[j]);
                    }
                }
            }
            i = i + 1;
        }
        proof {
            assert(src.take(i as int) =~= src);
        }
        out
    }
}

// ---------------------------------------------------------------------------
// Laws
// ---------------------------------------------------------------------------
/// Saving and loading again loses nothing: the workspaces listed in id
/// order, as `persisted_order` gives them, are found under the same ids as
/// in the store they came from (`from_workspaces` finds what this list
/// finds).
pub proof fn lemma_saved_order_reloads(s: Seq<Workspace>, saved: Seq<Workspace>, id: Seq<char>)
    requires
        ids_distinct(s),
        ids_ascending(saved),
        saved.to_multiset() == s.to_multiset(),
    ensures
        lookup(saved, id) == lookup(s, id),
{
    broadcast use vstd::seq_lib::group_to_multiset_ensures;

    assert forall|i: int, j: int|
        0 <= i < saved.len() && 0 <= j < saved.len() && i != j implies #[trigger] saved[i].workspace_id@
        != #[trigger] saved[j].workspace_id@ by {
        let (a, b) = if i < j { (i, j) } else { (j, i) };
        assert(text_less(saved[a].workspace_id@, saved[b].workspace_id@));
        lemma_text_less_order(saved[a].workspace_id@, saved[a].workspace_id@, saved[a].workspace_id@);
    }
    assert(ids_distinct(saved));
    match lookup(s, id) {
        Some(w) => {
            lemma_lookup_distinct(s, id, w);
            assert(s.to_multiset().count(w) > 0);
            lemma_lookup_distinct(saved, id, w);
        },
        None => {
            match lookup(saved, id) {
                Some(v) => {
                    lemma_lookup_distinct(saved, id, v);
                    assert(saved.to_multiset().count(v) > 0);
                    lemma_lookup_distinct(s, id, v);
                },
                None => {},
            }
        },
    }
}

/// A stored workspace is found by its id; the other ids are unaffected.
pub proof fn lemma_get_after_store(s: Seq<Workspace>, w: Workspace, other: Seq<char>)
    requires
        ids_distinct(s),
    ensures
        lookup(stored(s, w), w.workspace_id@) == Some(w),
        other != w.workspace_id@ ==> lookup(stored(s, w), other) == lookup(s, other),
{
    lemma_stored(s, w);
    assert(lookup(stored(s, w), w.workspace_id@) == Some(w));
    assert(lookup(stored(s, w), other) == if other == w.workspace_id@ {
        Some(w)
    } else {
        lookup(s, other)
    });
}

/// A removed workspace is no longer found, the others still are, and ids
/// stay distinct.
pub proof fn lemma_get_after_remove(s: Seq<Workspace>, id: Seq<char>, other: Seq<char>)
    requires
        ids_distinct(s),
    ensures
        lookup(without(s, id), id) is None,
        other != id ==> lookup(without(s, id), other) == lookup(s, other),
        ids_distinct(without(s, id)),
{
    lemma_position_of(s, id);
    let t = without(s, id);
    match position_of(s, id) {
        Some(i) => {
            assert forall|a: int| 0 <= a < t.len() implies (#[trigger] t[a]).workspace_id@ != id by {
                let a0 = if a < i { a } else { a + 1 };
                assert(t[a] == s[a0]);
                assert(s[a0].workspace_id@ != s[i].workspace_id@);
            }
            assert forall|a: int, b: int|
                0 <= a < t.len() && 0 <= b < t.len() && a != b implies #[trigger] t[a].workspace_id@
                != #[trigger] t[b].workspace_id@ by {
                let a0 = if a < i { a } else { a + 1 };
                let b0 = if b < i { b } else { b + 1 };
                assert(t[a] == s[a0] && t[b] == s[b0]);
            }
            lemma_position_of(t, id);
            lemma_position_of(t, other);
            lemma_position_of(s, other);
            if other != id {
                match position_of(s, other) {
                    Some(k) => {
                        assert(k != i);
                        let k1 = if k < i { k } else { k - 1 };
                        assert(t[k1] == s[k]);
                        lemma_position_unique(t, k1);
                    },
                    None => {
                        if let Some(k1) = position_of(t, other) {
                            let k0 = if k1 < i { k1 } else { k1 + 1 };
                            assert(t[k1] == s[k0]);
                        }
                    },
                }
            }
        },
        None => {
            lemma_position_of(s, id);
        },
    }
}

/// A listing holds exactly the stored workspaces that match the query.
pub proof fn lemma_list_is_matching(s: Seq<Workspace>, q: WorkspaceQuery)
    ensures
        forall|i: int|
            0 <= i < matching(s, q).len() ==> query_matches(#[trigger] matching(s, q)[i], q)
                && s.contains(matching(s, q)[i]),
        forall|i: int| 0 <= i < s.len() && query_matches(#[trigger] s[i], q) ==> matching(
            s,
            q,
        ).contains(s[i]),
    decreases s.len(),
{
    if s.len() > 0 {
        let p = s.drop_last();
        lemma_list_is_matching(p, q);
        assert forall|i: int|
            0 <= i < matching(s, q).len() implies query_matches(#[trigger] matching(s, q)[i], q)
            && s.contains(matching(s, q)[i]) by {
            if query_matches(s.last(), q) && i == matching(p, q).len() {
                assert(s[s.len() - 1] == s.last());
            } else {
                assert(matching(s, q)[i] == matching(p, q)[i]);
                let x = matching(p, q)[i];
                assert(p.contains(x));
                let k = choose|k: int| 0 <= k < p.len() && p[k] == x;
                assert(s[k] == x);
            }
        }
        assert forall|i: int| 0 <= i < s.len() && query_matches(#[trigger] s[i], q) implies matching(
            s,
            q,
        ).contains(s[i]) by {
            if i == s.len() - 1 {
                assert(matching(s, q)[matching(p, q).len() as int] == s[i]);
            } else {
                assert(p[i] == s[i]);
                assert(matching(p, q).contains(p[i]));
                let k = choose|k: int| 0 <= k < matching(p, q).len() && matching(p, q)[k] == p[i];
                assert(matching(s, q)[k] == p[i]);
            }
        }
    }
}


/// A listing keeps exactly the stored workspaces whose repository, branch
/// and owner equal every field that the query sets: each listed workspace
/// has the queried repository, branch and owner, and each stored workspace
/// that has them is listed.
pub proof fn lemma_listing_follows_the_query(s: Seq<Workspace>, q: WorkspaceQuery)
    ensures
        forall|i: int|
            0 <= i < matching(s, q).len() ==> {
                let w = #[trigger] matching(s, q)[i];
                &&& s.contains(w)
                &&& q.repo is Some ==> w.repo@ == q.repo->0@
                &&& q.branch is Some ==> w.branch@ == q.branch->0@
                &&& q.user_id is Some ==> w.user_id@ == q.user_id->0@
            },
        forall|w: Workspace|
            #![trigger s.contains(w)]
            s.contains(w) && (q.repo is Some ==> w.repo@ == q.repo->0@) && (q.branch is Some
                ==> w.branch@ == q.branch->0@) && (q.user_id is Some ==> w.user_id@
                == q.user_id->0@) ==> matching(s, q).contains(w),
{
    lemma_list_is_matching(s, q);
    assert forall|w: Workspace|
        #![trigger s.contains(w)]
        s.contains(w) && (q.repo is Some ==> w.repo@ == q.repo->0@) && (q.branch is Some
            ==> w.branch@ == q.branch->0@) && (q.user_id is Some ==> w.user_id@
            == q.user_id->0@) implies matching(s, q).contains(w) by {
        let k = choose|k: int| 0 <= k < s.len() && s[k] == w;
        assert(query_matches(s[k], q));
    }
}

} // verus!
