//! Docker resource names and labels for workspaces.
use std::collections::HashMap;

use vstd::prelude::*;

use crate::text::{
    ascii_alphanumeric, chars_of, concat, is_ascii_alphanumeric, is_ascii_digit, is_ascii_lower,
    lower_char, push_char, same_text, string_of, to_lower_char, trim_char, trim_end_char,
    trim_matches_char, trim_start_char,
};

verus! {

pub const MANAGED_BY_LABEL: &'static str = "space.manager/managed-by";

pub const MANAGED_BY_VALUE: &'static str = "gitea-workspace-manager";

pub const WORKSPACE_ID_LABEL: &'static str = "space.manager/workspace-id";

pub const REPO_LABEL: &'static str = "space.manager/repo";

pub const USER_ID_LABEL: &'static str = "space.manager/user-id";

/// The Docker names of one workspace's resources.
pub struct WorkspaceNames {
    pub workspace_id: String,
    pub container_name: String,
    pub volume_name: String,
    pub network_name: String,
}

/// What identifies a workspace: its id, its owner and its repository.
pub struct WorkspaceIdentity {
    pub workspace_id: String,
    pub user_id: String,
    pub repo: String,
}

// ---------------------------------------------------------------------------
// Specifications
// ---------------------------------------------------------------------------
/// One step of the slug scan: the output so far and whether the last input
/// character was turned into a dash.
pub open spec fn slug_scan(s: Seq<char>) -> (Seq<char>, bool)
    decreases s.len(),
{
    if s.len() == 0 {
        (Seq::<char>::empty(), false)
    } else {
        let (out, last_dash) = slug_scan(s.drop_last());
        let c = s.last();
        if is_ascii_alphanumeric(c) {
            (out.push(lower_char(c)), false)
        } else if !last_dash && out.len() > 0 {
            (out.push('-'), true)
        } else {
            (out, true)
        }
    }
}

pub open spec fn unknown_text() -> Seq<char> {
    seq!['u', 'n', 'k', 'n', 'o', 'w', 'n']
}

/// The first `n` characters of `s`.
pub open spec fn truncated(s: Seq<char>, n: nat) -> Seq<char> {
    if s.len() <= n {
        s
    } else {
        s.take(n as int)
    }
}

/// What `slug_component(value, max_len)` returns: ASCII letters and digits
/// lowercased, every run of other characters turned into one dash, dashes
/// trimmed from both ends, `unknown` when nothing is left, cut to `max_len`
/// characters.
pub open spec fn slug(value: Seq<char>, max_len: nat) -> Seq<char> {
    let trimmed = trim_char(slug_scan(value).0, '-');
    let fallback = if trimmed.len() == 0 {
        unknown_text()
    } else {
        trimmed
    };
    truncated(fallback, max_len)
}

/// `str::replace('/', "-")`.
pub open spec fn slashes_to_dashes(s: Seq<char>) -> Seq<char> {
    s.map_values(|c: char| if c == '/' { '-' } else { c })
}

pub open spec fn repo_slug_spec(repo: Seq<char>, max_len: nat) -> Seq<char> {
    slug(slashes_to_dashes(repo), max_len)
}

pub open spec fn gws_prefix() -> Seq<char> {
    seq!['g', 'w', 's', '-']
}

pub open spec fn data_suffix() -> Seq<char> {
    seq!['-', 'd', 'a', 't', 'a']
}

pub open spec fn network_text() -> Seq<char> {
    seq!['g', 'w', 's', '-', 'n', 'e', 't', 'w', 'o', 'r', 'k']
}

/// `gws-{user}-{repo}-{id}` with each part slugged.
pub open spec fn name_base(user_id: Seq<char>, repo: Seq<char>, workspace_id: Seq<char>) -> Seq<
    char,
> {
    gws_prefix() + slug(user_id, 24) + seq!['-'] + repo_slug_spec(repo, 48) + seq!['-'] + slug(
        workspace_id,
        24,
    )
}

/// No two dashes stand next to each other in `s`.
pub open spec fn no_double_dash(s: Seq<char>) -> bool {
    forall|i: int, j: int|
        #![trigger s[i], s[j]]
        0 <= i && j == i + 1 && j < s.len() ==> !(s[i] == '-' && s[j] == '-')
}

/// A character that may stand in a slug.
pub open spec fn is_slug_char(c: char) -> bool {
    is_ascii_lower(c) || is_ascii_digit(c) || c == '-'
}

/// The value stored under `key` in a map of strings, looked up by text.
pub open spec fn label_of(labels: Map<String, String>, key: Seq<char>) -> Option<Seq<char>> {
    if exists|k: String| labels.contains_key(k) && k@ == key {
        let k = choose|k: String| labels.contains_key(k) && k@ == key;
        Some(labels[k]@)
    } else {
        None
    }
}

/// Whether `labels` mark a container as one of this service's workspaces
/// with the given id.
pub open spec fn is_managed(labels: Map<String, String>, workspace_id: Seq<char>) -> bool {
    &&& label_of(labels, MANAGED_BY_LABEL@) == Some(MANAGED_BY_VALUE@)
    &&& label_of(labels, WORKSPACE_ID_LABEL@) == Some(workspace_id)
}

/// The labels of a workspace, as character sequences.
pub open spec fn label_pairs(identity: WorkspaceIdentity) -> Seq<(Seq<char>, Seq<char>)> {
    seq![
        (MANAGED_BY_LABEL@, MANAGED_BY_VALUE@),
        (WORKSPACE_ID_LABEL@, identity.workspace_id@),
        (USER_ID_LABEL@, identity.user_id@),
        (REPO_LABEL@, identity.repo@),
    ]
}

/// Every key of `pairs` stands in `labels`, and every key of `labels` with
/// that text holds the pair's value.
pub open spec fn labels_hold(labels: Map<String, String>, pairs: Seq<(Seq<char>, Seq<char>)>) -> bool {
    forall|i: int|
        0 <= i < pairs.len() ==> {
            &&& exists|k: String| labels.contains_key(k) && k@ == (#[trigger] pairs[i]).0
            &&& forall|k: String|
                labels.contains_key(k) && k@ == pairs[i].0 ==> labels[k]@ == pairs[i].1
        }
}

// ---------------------------------------------------------------------------
// Laws
// ---------------------------------------------------------------------------
proof fn lemma_slug_scan_chars(s: Seq<char>)
    ensures
        forall|i: int| 0 <= i < slug_scan(s).0.len() ==> is_slug_char(#[trigger] slug_scan(s).0[i]),
        slug_scan(s).0.len() > 0 ==> slug_scan(s).0[0] != '-',
        slug_scan(s).1 <==> (slug_scan(s).0.len() > 0 && slug_scan(s).0.last() == '-') || (
        s.len() > 0 && !is_ascii_alphanumeric(s.last())),
        no_double_dash(slug_scan(s).0),
    decreases s.len(),
{
    if s.len() > 0 {
        lemma_slug_scan_chars(s.drop_last());
        let (out, last_dash) = slug_scan(s.drop_last());
        let c = s.last();
        if is_ascii_alphanumeric(c) {
            assert(is_slug_char(lower_char(c)));
            assert(lower_char(c) != '-');
        }
    }
}

/// A slug is at most `max_len` characters long, and holds only lowercase
/// ASCII letters, digits and dashes, with no two dashes in a row; it does
/// not begin with a dash, it ends in one only when it was cut to
/// `max_len`, and it is empty only when `max_len` is 0.
pub proof fn lemma_slug_shape(value: Seq<char>, max_len: nat)
    ensures
        slug(value, max_len).len() <= max_len,
        max_len > 0 ==> slug(value, max_len).len() > 0,
        forall|i: int|
            0 <= i < slug(value, max_len).len() ==> is_slug_char(#[trigger] slug(value, max_len)[i]),
        slug(value, max_len).len() > 0 ==> slug(value, max_len)[0] != '-',
        0 < slug(value, max_len).len() < max_len ==> slug(value, max_len).last() != '-',
        no_double_dash(slug(value, max_len)),
{
    let scanned = slug_scan(value).0;
    lemma_slug_scan_chars(value);
    let (a, b) = crate::text::lemma_trim_char_sub(scanned, '-');
    let trimmed = trim_char(scanned, '-');
    assert forall|i: int| 0 <= i < trimmed.len() implies is_slug_char(trimmed[i]) by {
        assert(trimmed[i] == scanned[a + i]);
    }
    assert forall|i: int, j: int| 0 <= i && j == i + 1 && j < trimmed.len() implies !(trimmed[i]
        == '-' && trimmed[j] == '-') by {
        assert(trimmed[i] == scanned[a + i]);
        assert(trimmed[j] == scanned[a + j]);
    }
    let fallback = if trimmed.len() == 0 {
        unknown_text()
    } else {
        trimmed
    };
    assert forall|i: int| 0 <= i < fallback.len() implies is_slug_char(fallback[i]) by {
        if trimmed.len() == 0 {
            assert(is_ascii_lower(unknown_text()[i]));
        }
    }
    let out = truncated(fallback, max_len);
    assert forall|i: int| 0 <= i < out.len() implies is_slug_char(out[i]) by {
        assert(out[i] == fallback[i]);
    }
    assert forall|i: int, j: int| 0 <= i && j == i + 1 && j < out.len() implies !(out[i] == '-'
        && out[j] == '-') by {
        assert(out[i] == fallback[i]);
        assert(out[j] == fallback[j]);
        if trimmed.len() == 0 {
            assert(fallback[i] != '-');
        }
    }
    if out.len() > 0 {
        assert(out[0] == fallback[0]);
    }
    if 0 < out.len() < max_len {
        assert(out == fallback);
        if trimmed.len() == 0 {
            assert(fallback.last() == 'n');
        }
    }
}

/// A slug in the shape `slug` gives, not ending in a dash, scans to itself.
proof fn lemma_slug_scan_fixed(t: Seq<char>)
    requires
        forall|i: int| 0 <= i < t.len() ==> is_slug_char(#[trigger] t[i]),
        t.len() > 0 ==> t[0] != '-',
        no_double_dash(t),
    ensures
        slug_scan(t).0 == t,
    decreases t.len(),
{
    if t.len() > 0 {
        let p = t.drop_last();
        assert forall|i: int| 0 <= i < p.len() implies is_slug_char(#[trigger] p[i]) by {
            assert(p[i] == t[i]);
        }
        if p.len() > 0 {
            assert(p[0] == t[0]);
        }
        assert forall|i: int, j: int| 0 <= i && j == i + 1 && j < p.len() implies !(#[trigger] p[i]
            == '-' && #[trigger] p[j] == '-') by {
            assert(p[i] == t[i] && p[j] == t[j]);
        }
        lemma_slug_scan_fixed(p);
        lemma_slug_scan_chars(p);
        let c = t.last();
        assert(is_slug_char(t[t.len() - 1]));
        if c == '-' {
            assert(t.len() >= 2);
            assert(t[t.len() - 2] != '-' || t[t.len() - 1] != '-');
            assert(p.last() == t[t.len() - 2]);
            assert(is_slug_char(p[p.len() - 1]));
        }
        assert(t =~= p.push(c));
    }
}

/// Slugging a slug changes nothing, unless cutting it to `max_len` left a
/// dash at its end (as `ab-cd` cut to 3 characters leaves `ab-`). This is
/// always so when `value` is no longer than `max_len`.
pub proof fn lemma_slug_idempotent(value: Seq<char>, max_len: nat)
    requires
        slug(value, max_len).len() > 0 ==> slug(value, max_len).last() != '-',
    ensures
        slug(slug(value, max_len), max_len) == slug(value, max_len),
{
    let t = slug(value, max_len);
    lemma_slug_shape(value, max_len);
    if t.len() > 0 {
        lemma_slug_scan_fixed(t);
        assert(trim_start_char(t, '-') == t);
        assert(trim_end_char(t, '-') == t);
    } else {
        lemma_slug_scan_fixed(t);
        assert(trim_char(t, '-') =~= t);
    }
}

/// A value no longer than `max_len` leaves no dash at the end of its slug,
/// so slugging that slug again gives it back.
pub proof fn lemma_short_value_slug_ends_clean(value: Seq<char>, max_len: nat)
    requires
        value.len() <= max_len,
    ensures
        slug(value, max_len).len() > 0 ==> slug(value, max_len).last() != '-',
        slug(slug(value, max_len), max_len) == slug(value, max_len),
{
    lemma_slug_scan_len(value);
    let scanned = slug_scan(value).0;
    let (a, b) = crate::text::lemma_trim_char_sub(scanned, '-');
    let trimmed = trim_char(scanned, '-');
    lemma_slug_shape(value, max_len);
    if trimmed.len() > 0 {
        assert(trimmed.len() <= max_len);
        assert(slug(value, max_len) == trimmed);
    } else if unknown_text().len() <= max_len {
        assert(slug(value, max_len) == unknown_text());
        assert(unknown_text().last() == 'n');
    } else {
        let out = slug(value, max_len);
        if out.len() > 0 {
            assert(out.last() == unknown_text()[out.len() - 1]);
        }
    }
    lemma_slug_idempotent(value, max_len);
}

proof fn lemma_slug_scan_len(s: Seq<char>)
    ensures
        slug_scan(s).0.len() <= s.len(),
    decreases s.len(),
{
    if s.len() > 0 {
        lemma_slug_scan_len(s.drop_last());
    }
}

/// A label map that holds the labels of `docker_labels` marks the container
/// as managed, with the identity's workspace id.
pub proof fn lemma_docker_labels_mark_managed(identity: WorkspaceIdentity, labels: Map<String, String>)
    requires
        labels_hold(labels, label_pairs(identity)),
    ensures
        is_managed(labels, identity.workspace_id@),
{
    let pairs = label_pairs(identity);
    assert(pairs[0] == (MANAGED_BY_LABEL@, MANAGED_BY_VALUE@));
    assert(pairs[1] == (WORKSPACE_ID_LABEL@, identity.workspace_id@));
}

// ---------------------------------------------------------------------------
// Trusted access to the label map
// ---------------------------------------------------------------------------
/// `HashMap::get` on a map of strings, looked up by text: the value stored
/// under the key whose characters are `key`, if there is one. (A `HashMap`
/// holds at most one key of each text, since `String` equality is equality
/// of the characters.)
#[verifier::external_body]
fn label_value(labels: &HashMap<String, String>, key: &str) -> (res: Option<String>)
    ensures
        match res {
            Some(v) => label_of(labels@, key@) == Some(v@),
            None => label_of(labels@, key@) is None,
        },
{
    labels.get(key).cloned()
}

// ---------------------------------------------------------------------------
// Executable functions
// ---------------------------------------------------------------------------
impl WorkspaceIdentity {
    /// The container, volume and network names of this workspace.
    pub fn names(&self) -> (res: WorkspaceNames)
        ensures
            res.workspace_id@ == self.workspace_id@,
            res.container_name@ == truncated(
                name_base(self.user_id@, self.repo@, self.workspace_id@),
                120,
            ),
            res.volume_name@ == truncated(
                name_base(self.user_id@, self.repo@, self.workspace_id@) + data_suffix(),
                120,
            ),
            res.network_name@ == network_text(),
            res.container_name@ == name_base(self.user_id@, self.repo@, self.workspace_id@),
            res.volume_name@ == res.container_name@ + data_suffix(),
    {
        let user = slug_component(self.user_id.as_str(), 24);
        let repo = repo_slug(self.repo.as_str(), 48);
        let id = slug_component(self.workspace_id.as_str(), 24);
        proof {
            reveal_strlit("gws-");
            reveal_strlit("-");
            reveal_strlit("-data");
            reveal_strlit("gws-network");
            lemma_slug_shape(self.user_id@, 24);
            lemma_slug_shape(slashes_to_dashes(self.repo@), 48);
            lemma_slug_shape(self.workspace_id@, 24);
        }
        let mut base = concat("gws-", user.as_str());
        base = concat(base.as_str(), "-");
        base = concat(base.as_str(), repo.as_str());
        base = concat(base.as_str(), "-");
        base = concat(base.as_str(), id.as_str());
        proof {
            assert(base@ =~= name_base(self.user_id@, self.repo@, self.workspace_id@));
        }
        let volume = concat(base.as_str(), "-data");
        let container_name = truncate_component(base.as_str(), 120);
        let volume_name = truncate_component(volume.as_str(), 120);
        WorkspaceNames {
            workspace_id: self.workspace_id.clone(),
            container_name,
            volume_name,
            network_name: crate::text::copy_str("gws-network"),
        }
    }

    /// The Docker labels that mark a container as this workspace.
    pub fn docker_labels(&self) -> (res: Vec<(String, String)>)
        ensures
            res@.len() == 4,
            forall|i: int|
                0 <= i < 4 ==> (#[trigger] res@[i]).0@ == label_pairs(*self)[i].0 && res@[i].1@
                    == label_pairs(*self)[i].1,
    {
        let mut out: Vec<(String, String)> = Vec::new();
        out.push((crate::text::copy_str(MANAGED_BY_LABEL), crate::text::copy_str(MANAGED_BY_VALUE)));
        out.push((crate::text::copy_str(WORKSPACE_ID_LABEL), self.workspace_id.clone()));
        out.push((crate::text::copy_str(USER_ID_LABEL), self.user_id.clone()));
        out.push((crate::text::copy_str(REPO_LABEL), self.repo.clone()));
        out
    }
}

/// Whether a container's labels mark it as this service's workspace with id
/// `workspace_id`.
pub fn is_managed_workspace(labels: &HashMap<String, String>, workspace_id: &str) -> (res: bool)
    ensures
        res == is_managed(labels@, workspace_id@),
{
    let managed = match label_value(labels, MANAGED_BY_LABEL) {
        Some(value) => same_text(value.as_str(), MANAGED_BY_VALUE),
        None => false,
    };
    if !managed {
        return false;
    }
    match label_value(labels, WORKSPACE_ID_LABEL) {
        Some(value) => same_text(value.as_str(), workspace_id),
        None => false,
    }
}

/// The slug of a repository path, with `/` read as `-`.
fn repo_slug(repo: &str, max_len: usize) -> (res: String)
    ensures
        res@ == repo_slug_spec(repo@, max_len as nat),
{
    let v = chars_of(repo);
    let mut replaced = String::new();
    let mut i: usize = 0;
    while i < v.len()
        invariant
            v@ == repo@,
            i <= v@.len(),
            replaced@ == slashes_to_dashes(v@.take(i as int)),
        decreases v@.len() - i,
    {
        let c = v[i];
        let d = if c == '/' {
            '-'
        } else {
            c
        };
        proof {
            assert(slashes_to_dashes(v@.take(i + 1)) =~= slashes_to_dashes(v@.take(i as int)).push(
                d,
            ));
        }
        push_char(&mut replaced, d);
        i = i + 1;
    }
    proof {
        assert(v@.take(i as int) =~= repo@);
    }
    slug_component(replaced.as_str(), max_len)
}

/// A lowercase, dash-separated form of `value` of at most `max_len`
/// characters, fit for a Docker name.
pub fn slug_component(value: &str, max_len: usize) -> (res: String)
    ensures
        res@ == slug(value@, max_len as nat),
{
    let v = chars_of(value);
    let mut out = String::new();
    let mut last_dash = false;
    let mut i: usize = 0;
    while i < v.len()
        invariant
            v@ == value@,
            i <= v@.len(),
            (out@, last_dash) == slug_scan(v@.take(i as int)),
        decreases v@.len() - i,
    {
        let ch = v[i];
        proof {
            assert(v@.take(i + 1).drop_last() =~= v@.take(i as int));
        }
        if ascii_alphanumeric(ch) {
            push_char(&mut out, to_lower_char(ch));
            last_dash = false;
        } else {
            if !last_dash && !crate::text::is_empty_text(out.as_str()) {
                push_char(&mut out, '-');
            }
            last_dash = true;
        }
        i = i + 1;
    }
    proof {
        assert(v@.take(i as int) =~= value@);
    }
    let trimmed = trim_matches_char(out.as_str(), '-');
    proof {
        reveal_strlit("unknown");
    }
    if crate::text::is_empty_text(trimmed.as_str()) {
        truncate_component("unknown", max_len)
    } else {
        truncate_component(trimmed.as_str(), max_len)
    }
}

/// The first `max_len` characters of `value`.
fn truncate_component(value: &str, max_len: usize) -> (res: String)
    ensures
        res@ == truncated(value@, max_len as nat),
{
    let v = chars_of(value);
    if v.len() <= max_len {
        string_of(&v, 0, v.len())
    } else {
        string_of(&v, 0, max_len)
    }
}

} // verus!
