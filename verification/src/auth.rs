//! Login state: pending OAuth states, user sessions and token checks.
use vstd::hash_map::StringHashMap;
use vstd::prelude::*;

use crate::sources::{all_alphanumeric, random_alphanumeric};
use crate::paths::{extension_of, file_stem_of, file_name_text, find_last_char};
use crate::text::{concat, same_text, string_of, chars_of};
use crate::workspace::copy_opt;

verus! {

/// A login that was started and waits for Gitea's callback.
pub struct PendingOAuth {
    pub gitea_base_url: String,
    pub redirect_uri: String,
    pub return_to: Option<String>,
    pub popup: bool,
}

/// A logged-in user.
pub struct UserSession {
    pub gitea_base_url: String,
    pub access_token: String,
    pub user: GiteaUser,
}

/// A Gitea account.
pub struct GiteaUser {
    pub id: i64,
    pub login: String,
    pub full_name: Option<String>,
    pub email: Option<String>,
}

/// The login state of the service: pending OAuth states, sessions by id,
/// and when each session's token was last checked (in milliseconds of a
/// monotonic clock).
pub struct AuthStore {
    oauth_states: StringHashMap<PendingOAuth>,
    sessions: StringHashMap<UserSession>,
    token_checks: StringHashMap<u64>,
}

/// How long a successful token check stays valid: one minute.
pub const TOKEN_CHECK_TTL_MS: u64 = 60000;

// ---------------------------------------------------------------------------
// Specifications
// ---------------------------------------------------------------------------
/// The value of `k` in `m`, if any.
pub open spec fn entry<V>(m: Map<Seq<char>, V>, k: Seq<char>) -> Option<V> {
    if m.contains_key(k) {
        Some(m[k])
    } else {
        None
    }
}

/// A token check at `checked_at` is still fresh at `now`. (A clock reading
/// earlier than the check counts as no time elapsed.)
pub open spec fn check_is_fresh(checked_at: u64, now: u64, ttl: u64) -> bool {
    (if now >= checked_at {
        now - checked_at
    } else {
        0
    }) < ttl
}

/// The map made of these pairs, later pairs replacing earlier ones.
pub open spec fn pairs_map(pairs: Seq<(String, UserSession)>) -> Map<Seq<char>, UserSession>
    decreases pairs.len(),
{
    if pairs.len() == 0 {
        Map::empty()
    } else {
        pairs_map(pairs.drop_last()).insert(pairs.last().0@, pairs.last().1)
    }
}

// ---------------------------------------------------------------------------
// Exact copies
// ---------------------------------------------------------------------------
impl PendingOAuth {
    pub fn duplicate(&self) -> (res: PendingOAuth)
        ensures
            res == *self,
    {
        PendingOAuth {
            gitea_base_url: self.gitea_base_url.clone(),
            redirect_uri: self.redirect_uri.clone(),
            return_to: copy_opt(&self.return_to),
            popup: self.popup,
        }
    }
}

impl GiteaUser {
    pub fn duplicate(&self) -> (res: GiteaUser)
        ensures
            res == *self,
    {
        GiteaUser {
            id: self.id,
            login: self.login.clone(),
            full_name: copy_opt(&self.full_name),
            email: copy_opt(&self.email),
        }
    }
}

impl UserSession {
    pub fn duplicate(&self) -> (res: UserSession)
        ensures
            res == *self,
    {
        UserSession {
            gitea_base_url: self.gitea_base_url.clone(),
            access_token: self.access_token.clone(),
            user: self.user.duplicate(),
        }
    }
}

// ---------------------------------------------------------------------------
// The store
// ---------------------------------------------------------------------------
impl AuthStore {
    pub closed spec fn pending(&self) -> Map<Seq<char>, PendingOAuth> {
        self.oauth_states@
    }

    pub closed spec fn session_map(&self) -> Map<Seq<char>, UserSession> {
        self.sessions@
    }

    pub closed spec fn checks(&self) -> Map<Seq<char>, u64> {
        self.token_checks@
    }

    /// A store with no state, no session and no check.
    pub fn new() -> (res: AuthStore)
        ensures
            res.pending() == Map::<Seq<char>, PendingOAuth>::empty(),
            res.session_map() == Map::<Seq<char>, UserSession>::empty(),
            res.checks() == Map::<Seq<char>, u64>::empty(),
    {
        AuthStore {
            oauth_states: StringHashMap::new(),
            sessions: StringHashMap::new(),
            token_checks: StringHashMap::new(),
        }
    }

    /// A store holding these sessions (of two with the same id, the later
    /// one), with no pending state and no check.
    pub fn from_sessions(sessions: Vec<(String, UserSession)>) -> (res: AuthStore)
        ensures
            res.pending() == Map::<Seq<char>, PendingOAuth>::empty(),
            res.session_map() == pairs_map(sessions@),
            res.checks() == Map::<Seq<char>, u64>::empty(),
    {
        let mut store = AuthStore::new();
        let mut i: usize = 0;
        while i < sessions.len()
            invariant
                i <= sessions@.len(),
                store.pending() == Map::<Seq<char>, PendingOAuth>::empty(),
                store.checks() == Map::<Seq<char>, u64>::empty(),
                store.session_map() == pairs_map(sessions@.take(i as int)),
            decreases sessions@.len() - i,
        {
            proof {
                assert(sessions@.take(i + 1).drop_last() =~= sessions@.take(i as int));
            }
            store.sessions.insert(sessions[i].0.clone(), sessions[i].1.duplicate());
            i = i + 1;
        }
        proof {
            assert(sessions@.take(i as int) =~= sessions@);
        }
        store
    }

    /// Records a pending login under a fresh 32-character state and returns
    /// the state.
    pub fn create_oauth_state(&mut self, pending: PendingOAuth) -> (res: String)
        ensures
            res@.len() == 32,
            all_alphanumeric(res@),
            final(self).pending() == old(self).pending().insert(res@, pending),
            final(self).session_map() == old(self).session_map(),
            final(self).checks() == old(self).checks(),
    {
        let state = random_alphanumeric(32);
        self.oauth_states.insert(state.clone(), pending);
        state
    }

    /// Removes and returns the pending login of this state: each state can
    /// be taken once.
    pub fn take_oauth_state(&mut self, state: &str) -> (res: Option<PendingOAuth>)
        ensures
            res == entry(old(self).pending(), state@),
            final(self).pending() == old(self).pending().remove(state@),
            final(self).session_map() == old(self).session_map(),
            final(self).checks() == old(self).checks(),
    {
        let found = match self.oauth_states.get(state) {
            Some(p) => Some(p.duplicate()),
            None => None,
        };
        self.oauth_states.remove(state);
        found
    }

    /// Stores a session under a fresh 48-character id and returns the id.
    pub fn create_session(&mut self, session: UserSession) -> (res: String)
        ensures
            res@.len() == 48,
            all_alphanumeric(res@),
            final(self).session_map() == old(self).session_map().insert(res@, session),
            final(self).pending() == old(self).pending(),
            final(self).checks() == old(self).checks(),
    {
        let session_id = new_session_id();
        self.insert_session(session_id.as_str(), session);
        session_id
    }

    /// Stores a session under the given id, replacing any session there.
    pub fn insert_session(&mut self, session_id: &str, session: UserSession)
        ensures
            final(self).session_map() == old(self).session_map().insert(session_id@, session),
            final(self).pending() == old(self).pending(),
            final(self).checks() == old(self).checks(),
    {
        self.sessions.insert(crate::text::copy_str(session_id), session);
    }

    /// The session with this id.
    pub fn get_session(&self, session_id: &str) -> (res: Option<UserSession>)
        ensures
            res == entry(self.session_map(), session_id@),
    {
        match self.sessions.get(session_id) {
            Some(s) => Some(s.duplicate()),
            None => None,
        }
    }

    /// Forgets the session with this id and its token check.
    pub fn remove_session(&mut self, session_id: &str)
        ensures
            final(self).session_map() == old(self).session_map().remove(session_id@),
            final(self).checks() == old(self).checks().remove(session_id@),
            final(self).pending() == old(self).pending(),
    {
        self.sessions.remove(session_id);
        self.token_checks.remove(session_id);
    }

    /// Whether the session's token was checked less than `ttl_ms` before
    /// `now_ms`.
    pub fn token_check_is_fresh(&self, session_id: &str, now_ms: u64, ttl_ms: u64) -> (res: bool)
        ensures
            res == match entry(self.checks(), session_id@) {
                Some(t) => check_is_fresh(t, now_ms, ttl_ms),
                None => false,
            },
    {
        match self.token_checks.get(session_id) {
            Some(checked_at) => {
                let elapsed: u64 = if now_ms >= *checked_at {
                    now_ms - *checked_at
                } else {
                    0
                };
                elapsed < ttl_ms
            },
            None => false,
        }
    }

    /// Records that the session's token was checked at `now_ms`.
    pub fn mark_token_checked(&mut self, session_id: &str, now_ms: u64)
        ensures
            final(self).checks() == old(self).checks().insert(session_id@, now_ms),
            final(self).session_map() == old(self).session_map(),
            final(self).pending() == old(self).pending(),
    {
        let key = crate::text::copy_str(session_id);
        self.token_checks.insert(key, now_ms);
    }
}

/// A fresh session id: 48 random ASCII letters and digits.
pub fn new_session_id() -> (res: String)
    ensures
        res@.len() == 48,
        all_alphanumeric(res@),
{
    random_alphanumeric(48)
}

// ---------------------------------------------------------------------------
// Session files
// ---------------------------------------------------------------------------
/// The name of the file that holds a session: `{id}.json`.
pub open spec fn session_file_name_of(session_id: Seq<char>) -> Seq<char> {
    session_id + ".json"@
}

/// The session id that a file of the sessions directory holds: the stem
/// of a `.json` file; other files hold none.
pub open spec fn session_id_of_file(name: Seq<char>) -> Option<Seq<char>> {
    if extension_of(name) == Some("json"@) {
        file_stem_of(name)
    } else {
        None
    }
}

/// The name of the file that stores the session `session_id`.
pub fn session_file_name(session_id: &str) -> (res: String)
    ensures
        res@ == session_file_name_of(session_id@),
{
    concat(session_id, ".json")
}

/// The id of the session stored in the file `name`, if it is a session file.
pub fn session_id_from_file_name(name: &str) -> (res: Option<String>)
    ensures
        match res {
            Some(id) => session_id_of_file(name@) == Some(id@),
            None => session_id_of_file(name@) is None,
        },
{
    let file = match file_name_text(name) {
        Some(f) => f,
        None => return None,
    };
    let dot = match find_last_char(file.as_str(), '.') {
        Some(i) => i,
        None => return None,
    };
    if dot < 1 {
        return None;
    }
    let chars = chars_of(file.as_str());
    assert(dot < chars.len());
    let extension = string_of(&chars, dot + 1, chars.len());
    proof {
        assert(extension@ =~= file@.skip(dot + 1));
    }
    if !same_text(extension.as_str(), "json") {
        return None;
    }
    let stem = string_of(&chars, 0, dot);
    proof {
        assert(stem@ =~= file@.take(dot as int));
    }
    Some(stem)
}

// ---------------------------------------------------------------------------
// Laws
// ---------------------------------------------------------------------------
/// An OAuth state is single-use: taking a freshly recorded state gives back
/// its pending login, and taking it again gives nothing.
pub proof fn lemma_oauth_state_single_use(
    pending: Map<Seq<char>, PendingOAuth>,
    state: Seq<char>,
    login: PendingOAuth,
)
    ensures
        entry(pending.insert(state, login), state) == Some(login),
        entry(pending.insert(state, login).remove(state), state) is None,
{
}

/// A session reads back as it was written, until it is removed.
pub proof fn lemma_session_read_after_write(
    sessions: Map<Seq<char>, UserSession>,
    id: Seq<char>,
    session: UserSession,
    other: Seq<char>,
)
    ensures
        entry(sessions.insert(id, session), id) == Some(session),
        other != id ==> entry(sessions.insert(id, session), other) == entry(sessions, other),
        entry(sessions.insert(id, session).remove(id), id) is None,
{
}

/// A session that was stored and reloaded from the list of stored pairs is
/// found again under its id, when no later pair reuses that id.
pub proof fn lemma_reloaded_session(pairs: Seq<(String, UserSession)>, i: int)
    requires
        0 <= i < pairs.len(),
        forall|j: int| i < j < pairs.len() ==> (#[trigger] pairs[j]).0@ != pairs[i].0@,
    ensures
        entry(pairs_map(pairs), pairs[i].0@) == Some(pairs[i].1),
    decreases pairs.len(),
{
    if i < pairs.len() - 1 {
        assert forall|j: int| i < j < pairs.drop_last().len() implies (
        #[trigger] pairs.drop_last()[j]).0@ != pairs.drop_last()[i].0@ by {
            assert(pairs.drop_last()[j] == pairs[j]);
        }
        lemma_reloaded_session(pairs.drop_last(), i);
        assert(pairs.last() == pairs[pairs.len() - 1]);
    }
}

/// A session written to its file is found again under its id when the
/// sessions directory is read back: for any non-empty id without `/` (the
/// generated ids are alphanumeric), the file name gives back the id.
pub proof fn lemma_session_file_round_trip(session_id: Seq<char>)
    requires
        session_id.len() > 0,
        forall|i: int| 0 <= i < session_id.len() ==> #[trigger] session_id[i] != '/',
    ensures
        session_id_of_file(session_file_name_of(session_id)) == Some(session_id),
{
    reveal_strlit(".json");
    reveal_strlit("json");
    let name = session_file_name_of(session_id);
    let n = session_id.len() as int;
    assert(name.len() == n + 5);
    assert forall|j: int| 0 <= j < name.len() implies name[j] != '/' by {
        if j < n {
            assert(name[j] == session_id[j]);
        }
    }
    crate::text::lemma_split_on_last(name, '/');
    assert(crate::paths::last_named_segment(seq![name]) == Some(name)) by {
        assert(seq![name].last() == name);
        assert(name != seq!['.']) by {
            assert(name.len() > 1);
        }
    }
    assert(name != seq!['.', '.']) by {
        assert(name.len() > 2);
    }
    assert(crate::paths::file_name(name) == Some(name));
    let t0 = name;
    let t1 = t0.drop_last();
    let t2 = t1.drop_last();
    let t3 = t2.drop_last();
    let t4 = t3.drop_last();
    assert(t0.last() == 'n' && t1.last() == 'o' && t2.last() == 's' && t3.last() == 'j' && t4.last() == '.');
    assert(t4.len() == n + 1);
    assert(crate::paths::last_index_of(t4, '.') == Some(n));
    assert(crate::paths::last_index_of(t3, '.') == Some(n));
    assert(crate::paths::last_index_of(t2, '.') == Some(n));
    assert(crate::paths::last_index_of(t1, '.') == Some(n));
    assert(crate::paths::last_index_of(t0, '.') == Some(n));
    assert(name.skip(n + 1) =~= "json"@);
    assert(name.take(n) =~= session_id);
}

/// A recorded token check stays fresh for the time to live and no longer:
/// at any later time `now`, it is fresh exactly while less than `ttl` has
/// passed since it was recorded.
pub proof fn lemma_fresh_after_mark(
    checks: Map<Seq<char>, u64>,
    id: Seq<char>,
    checked_at: u64,
    now: u64,
    ttl: u64,
)
    requires
        checked_at <= now,
    ensures
        entry(checks.insert(id, checked_at), id) matches Some(t) && (check_is_fresh(t, now, ttl)
            <==> now - checked_at < ttl),
{
}

} // verus!
