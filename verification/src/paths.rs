//! Unix paths as text, with the meaning `std::path` gives them, and the
//! plan of the bind mounts that share code-server data between workspaces.
use vstd::prelude::*;

use crate::config::WorkspaceSharedData;
use crate::naming::slug;
use crate::text::{
    chars_of, concat, copy_str, ends_with, has_prefix, has_suffix, is_empty_text, same_text,
    split_char, split_on, starts_with, string_views,
};

verus! {

// ---------------------------------------------------------------------------
// Path specifications
// ---------------------------------------------------------------------------
/// `Path::is_absolute` on Unix: the path begins with `/`.
pub open spec fn is_absolute(p: Seq<char>) -> bool {
    p.len() > 0 && p[0] == '/'
}

/// `PathBuf::join` on Unix: an absolute `p` replaces `base`; otherwise `p`
/// is appended, with a `/` in between when `base` is not empty and does
/// not already end with one.
pub open spec fn path_join(base: Seq<char>, p: Seq<char>) -> Seq<char> {
    if is_absolute(p) {
        p
    } else if base.len() > 0 && base.last() != '/' {
        base + seq!['/'] + p
    } else {
        base + p
    }
}

/// A `/`-separated segment that names a directory entry (what
/// `Path::components` yields as `Normal`): not empty, not `.`, not `..`.
pub open spec fn is_normal_segment(s: Seq<char>) -> bool {
    s.len() > 0 && s != seq!['.'] && s != seq!['.', '.']
}

/// The path has a `..` component.
pub open spec fn has_parent_component(p: Seq<char>) -> bool {
    exists|i: int| 0 <= i < split_on(p, '/').len() && #[trigger] split_on(p, '/')[i] == seq!['.', '.']
}

/// The `Normal` components of a list of segments, in order.
pub open spec fn normal_segments(segs: Seq<Seq<char>>) -> Seq<Seq<char>>
    decreases segs.len(),
{
    if segs.len() == 0 {
        Seq::empty()
    } else if is_normal_segment(segs.last()) {
        normal_segments(segs.drop_last()).push(segs.last())
    } else {
        normal_segments(segs.drop_last())
    }
}

/// `base` with each of `parts` pushed onto it in turn.
pub open spec fn join_all(base: Seq<char>, parts: Seq<Seq<char>>) -> Seq<char>
    decreases parts.len(),
{
    if parts.len() == 0 {
        base
    } else {
        path_join(join_all(base, parts.drop_last()), parts.last())
    }
}

/// What `shared_file_storage_path(p)` returns: a relative path as it is; an
/// absolute one re-rooted under `__absolute`, which fails on `..` and on
/// the root itself.
pub open spec fn storage_path(p: Seq<char>) -> Result<Seq<char>, Seq<char>> {
    if !is_absolute(p) {
        Ok(p)
    } else if has_parent_component(p) {
        Err("shared file path contains unsupported component"@)
    } else if normal_segments(split_on(p, '/')).len() == 0 {
        Err("shared file path must not be root"@)
    } else {
        Ok(join_all("__absolute"@, normal_segments(split_on(p, '/'))))
    }
}

pub open spec fn code_server_data_dir() -> Seq<char> {
    "/home/coder/.local/share/code-server"@
}

/// What `shared_file_container_path(p)` returns.
pub open spec fn container_path(p: Seq<char>) -> Seq<char> {
    if is_absolute(p) {
        p
    } else {
        path_join(code_server_data_dir(), p)
    }
}

/// The last segment that is neither empty nor `.`.
pub open spec fn last_named_segment(segs: Seq<Seq<char>>) -> Option<Seq<char>>
    decreases segs.len(),
{
    if segs.len() == 0 {
        None
    } else if segs.last().len() > 0 && segs.last() != seq!['.'] {
        Some(segs.last())
    } else {
        last_named_segment(segs.drop_last())
    }
}

/// `Path::file_name`: the last component, when it is a `Normal` one.
pub open spec fn file_name(p: Seq<char>) -> Option<Seq<char>> {
    match last_named_segment(split_on(p, '/')) {
        Some(n) => if n == seq!['.', '.'] {
            None
        } else {
            Some(n)
        },
        None => None,
    }
}

/// `Path::extension(p).is_some()`: the file name has a `.` after its first
/// character.
pub open spec fn has_extension(p: Seq<char>) -> bool {
    match file_name(p) {
        Some(n) => exists|i: int| 1 <= i < n.len() && n[i] == '.',
        None => false,
    }
}

// ---------------------------------------------------------------------------
// Path functions
// ---------------------------------------------------------------------------
/// `Path::is_absolute`.
pub fn path_is_absolute(p: &str) -> (res: bool)
    ensures
        res == is_absolute(p@),
{
    let v = chars_of(p);
    v.len() > 0 && v[0] == '/'
}

/// `base.join(p)`.
pub fn join_path(base: &str, p: &str) -> (res: String)
    ensures
        res@ == path_join(base@, p@),
{
    if path_is_absolute(p) {
        return copy_str(p);
    }
    let vb = chars_of(base);
    if vb.len() > 0 && vb[vb.len() - 1] != '/' {
        let with_sep = concat(base, "/");
        proof {
            reveal_strlit("/");
        }
        concat(with_sep.as_str(), p)
    } else {
        concat(base, p)
    }
}

fn is_dot_dot(s: &str) -> (res: bool)
    ensures
        res == (s@ == seq!['.', '.']),
{
    let v = chars_of(s);
    let r = v.len() == 2 && v[0] == '.' && v[1] == '.';
    proof {
        if v@.len() == 2 && v@[0] == '.' && v@[1] == '.' {
            assert(v@ =~= seq!['.', '.']);
        }
    }
    r
}

fn is_normal(s: &str) -> (res: bool)
    ensures
        res == is_normal_segment(s@),
{
    let v = chars_of(s);
    if v.len() == 0 {
        return false;
    }
    if v.len() == 1 && v[0] == '.' {
        proof {
            assert(v@ =~= seq!['.']);
        }
        return false;
    }
    if is_dot_dot(s) {
        return false;
    }
    proof {
        if s@ == seq!['.'] {
            assert(s@.len() == 1 && s@[0] == '.');
        }
    }
    true
}

/// Whether the path has a `..` component.
pub fn contains_parent_component(p: &str) -> (res: bool)
    ensures
        res == has_parent_component(p@),
{
    let segs = split_char(p, '/');
    let mut i: usize = 0;
    while i < segs.len()
        invariant
            i <= segs@.len(),
            string_views(segs@) == split_on(p@, '/'),
            forall|j: int| 0 <= j < i ==> split_on(p@, '/')[j] != seq!['.', '.'],
        decreases segs@.len() - i,
    {
        proof {
            assert(string_views(segs@)[i as int] == segs@[i as int]@);
        }
        if is_dot_dot(segs[i].as_str()) {
            return true;
        }
        i = i + 1;
    }
    false
}

/// The file-or-directory guess that the mount plan makes: the path's file
/// name has an extension.
pub fn shared_path_is_probably_file(p: &str) -> (res: bool)
    ensures
        res == has_extension(p@),
{
    let segs = split_char(p, '/');
    let mut k: usize = segs.len();
    proof {
        assert(string_views(segs@).take(k as int) =~= string_views(segs@));
    }
    while k > 0
        invariant
            k <= segs@.len(),
            string_views(segs@) == split_on(p@, '/'),
            last_named_segment(split_on(p@, '/')) == last_named_segment(
                string_views(segs@).take(k as int),
            ),
        decreases k,
    {
        let seg = &segs[k - 1];
        proof {
            let t = string_views(segs@).take(k as int);
            assert(t.last() == segs@[k - 1]@);
            assert(t.drop_last() =~= string_views(segs@).take(k - 1));
        }
        let v = chars_of(seg.as_str());
        let named = v.len() > 0 && !(v.len() == 1 && v[0] == '.');
        proof {
            if v@.len() == 1 && v@[0] == '.' {
                assert(v@ =~= seq!['.']);
            }
        }
        if named {
            if is_dot_dot(seg.as_str()) {
                return false;
            }
            proof {
                assert(last_named_segment(string_views(segs@).take(k as int)) == Some(v@));
                assert(file_name(p@) == Some(v@));
            }
            let mut i: usize = 1;
            while i < v.len()
                invariant
                    1 <= i <= v@.len(),
                    file_name(p@) == Some(v@),
                    forall|j: int| 1 <= j < i ==> v@[j] != '.',
                decreases v@.len() - i,
            {
                if v[i] == '.' {
                    proof {
                        assert(1 <= i < v@.len() && v@[i as int] == '.');
                    }
                    return true;
                }
                i = i + 1;
            }
            return false;
        }
        k = k - 1;
    }
    false
}

/// Where a shared path is stored under the shared data directory.
pub fn shared_file_storage_path(p: &str) -> (res: Result<String, String>)
    ensures
        match res {
            Ok(s) => storage_path(p@) == Ok::<Seq<char>, Seq<char>>(s@),
            Err(e) => storage_path(p@) == Err::<Seq<char>, Seq<char>>(e@),
        },
{
    if !path_is_absolute(p) {
        return Ok(copy_str(p));
    }
    if contains_parent_component(p) {
        return Err(copy_str("shared file path contains unsupported component"));
    }
    let segs = split_char(p, '/');
    let mut out = copy_str("__absolute");
    let mut count: usize = 0;
    let mut i: usize = 0;
    while i < segs.len()
        invariant
            i <= segs@.len(),
            string_views(segs@) == split_on(p@, '/'),
            count <= i,
            count == normal_segments(string_views(segs@).take(i as int)).len(),
            out@ == join_all("__absolute"@, normal_segments(string_views(segs@).take(i as int))),
        decreases segs@.len() - i,
    {
        proof {
            let t = string_views(segs@).take(i + 1);
            assert(t.drop_last() =~= string_views(segs@).take(i as int));
            assert(t.last() == segs@[i as int]@);
        }
        if is_normal(segs[i].as_str()) {
            proof {
                let n = normal_segments(string_views(segs@).take(i as int));
                assert(n.push(segs@[i as int]@).drop_last() =~= n);
            }
            out = join_path(out.as_str(), segs[i].as_str());
            count = count + 1;
        }
        i = i + 1;
    }
    proof {
        assert(string_views(segs@).take(i as int) =~= split_on(p@, '/'));
    }
    if count == 0 {
        return Err(copy_str("shared file path must not be root"));
    }
    Ok(out)
}

/// Where a shared path is mounted inside the workspace container.
pub fn shared_file_container_path(p: &str) -> (res: String)
    ensures
        res@ == container_path(p@),
{
    if path_is_absolute(p) {
        copy_str(p)
    } else {
        join_path("/home/coder/.local/share/code-server", p)
    }
}

/// Refuses a shared path with a `..` component.
pub fn validate_shared_file_path(p: &str) -> (res: Result<(), String>)
    ensures
        res is Ok <==> !has_parent_component(p@),
        res matches Err(e) ==> e@ == "shared file path must not contain .."@,
{
    if contains_parent_component(p) {
        Err(copy_str("shared file path must not contain .."))
    } else {
        Ok(())
    }
}

// ---------------------------------------------------------------------------
// File names
// ---------------------------------------------------------------------------
/// The index of the last occurrence of `c`.
pub open spec fn last_index_of(s: Seq<char>, c: char) -> Option<int>
    decreases s.len(),
{
    if s.len() == 0 {
        None
    } else if s.last() == c {
        Some(s.len() - 1)
    } else {
        last_index_of(s.drop_last(), c)
    }
}

/// `Path::extension`: what follows the last `.` of the file name, when that
/// `.` is not its first character.
pub open spec fn extension_of(p: Seq<char>) -> Option<Seq<char>> {
    match file_name(p) {
        Some(n) => match last_index_of(n, '.') {
            Some(i) => if i >= 1 {
                Some(n.skip(i + 1))
            } else {
                None
            },
            None => None,
        },
        None => None,
    }
}

/// `Path::file_stem`: the file name without its extension.
pub open spec fn file_stem_of(p: Seq<char>) -> Option<Seq<char>> {
    match file_name(p) {
        Some(n) => match last_index_of(n, '.') {
            Some(i) => if i >= 1 {
                Some(n.take(i))
            } else {
                Some(n)
            },
            None => Some(n),
        },
        None => None,
    }
}

/// `Path::file_name`.
pub fn file_name_text(p: &str) -> (res: Option<String>)
    ensures
        match res {
            Some(n) => file_name(p@) == Some(n@),
            None => file_name(p@) is None,
        },
{
    let segs = split_char(p, '/');
    let mut k: usize = segs.len();
    proof {
        assert(string_views(segs@).take(k as int) =~= string_views(segs@));
    }
    while k > 0
        invariant
            k <= segs@.len(),
            string_views(segs@) == split_on(p@, '/'),
            last_named_segment(split_on(p@, '/')) == last_named_segment(
                string_views(segs@).take(k as int),
            ),
        decreases k,
    {
        proof {
            let t = string_views(segs@).take(k as int);
            assert(t.last() == segs@[k - 1]@);
            assert(t.drop_last() =~= string_views(segs@).take(k - 1));
        }
        let v = chars_of(segs[k - 1].as_str());
        let named = v.len() > 0 && !(v.len() == 1 && v[0] == '.');
        proof {
            if v@.len() == 1 && v@[0] == '.' {
                assert(v@ =~= seq!['.']);
            }
        }
        if named {
            if is_dot_dot(segs[k - 1].as_str()) {
                return None;
            }
            return Some(segs[k - 1].clone());
        }
        k = k - 1;
    }
    None
}

/// The index of the last `c` in `s`.
pub fn find_last_char(s: &str, c: char) -> (res: Option<usize>)
    ensures
        match res {
            Some(i) => last_index_of(s@, c) == Some(i as int) && i < s@.len(),
            None => last_index_of(s@, c) is None,
        },
{
    let v = chars_of(s);
    let mut k: usize = v.len();
    proof {
        assert(s@.take(k as int) =~= s@);
    }
    while k > 0
        invariant
            v@ == s@,
            k <= v@.len(),
            last_index_of(s@, c) == last_index_of(s@.take(k as int), c),
        decreases k,
    {
        proof {
            assert(s@.take(k as int).drop_last() =~= s@.take(k - 1));
        }
        if v[k - 1] == c {
            return Some(k - 1);
        }
        k = k - 1;
    }
    None
}

// ---------------------------------------------------------------------------
// The mount plan
// ---------------------------------------------------------------------------
/// One bind mount to prepare, in the order the workspace's `docker run`
/// lists them.
pub enum MountStep {
    /// The whole shared directory, mounted over code-server's data directory.
    SharedRoot { host_dir: String },
    /// One shared file or directory.
    SharedPath { host_path: String, container_path: String, is_file: bool },
    /// A private directory of this workspace, hiding part of the shared data.
    PrivateDir { host_dir: String, container_path: String },
}

/// The character-level content of a mount step.
pub enum MountView {
    SharedRoot(Seq<char>),
    SharedPath(Seq<char>, Seq<char>, bool),
    PrivateDir(Seq<char>, Seq<char>),
}

pub open spec fn step_view(s: MountStep) -> MountView {
    match s {
        MountStep::SharedRoot { host_dir } => MountView::SharedRoot(host_dir@),
        MountStep::SharedPath { host_path, container_path, is_file } => MountView::SharedPath(
            host_path@,
            container_path@,
            is_file,
        ),
        MountStep::PrivateDir { host_dir, container_path } => MountView::PrivateDir(
            host_dir@,
            container_path@,
        ),
    }
}

pub open spec fn steps_view(s: Seq<MountStep>) -> Seq<MountView> {
    s.map_values(|m: MountStep| step_view(m))
}

/// The mounts to prepare, then the error that stops the plan, if any.
pub struct MountPlan {
    pub steps: Vec<MountStep>,
    pub error: Option<String>,
}

/// What `shared_code_server_data_dir` returns.
pub open spec fn shared_dir_of(data_dir: Seq<char>, strategy: WorkspaceSharedData, login: Seq<char>) -> Option<Seq<char>> {
    match strategy {
        WorkspaceSharedData::Unshared => None,
        WorkspaceSharedData::Global => Some(path_join(data_dir, "shared-code-server/global"@)),
        WorkspaceSharedData::User => Some(
            path_join(path_join(data_dir, "shared-code-server/users"@), slug(login, 48)),
        ),
    }
}

/// The mount of one shared path, or why it is refused.
pub open spec fn shared_path_step(shared_dir: Seq<char>, p: Seq<char>) -> Result<MountView, Seq<char>> {
    if has_parent_component(p) {
        Err("shared file path must not contain .."@)
    } else {
        match storage_path(p) {
            Ok(s) => Ok(MountView::SharedPath(path_join(shared_dir, s), container_path(p), has_extension(p))),
            Err(e) => Err(e),
        }
    }
}

/// The host directory that hides `rel` for one workspace.
pub open spec fn private_dir_of(data_dir: Seq<char>, workspace_id: Seq<char>, rel: Seq<char>) -> Seq<char> {
    path_join(
        path_join(path_join(path_join(data_dir, "workspaces"@), workspace_id), "private-code-server"@),
        rel,
    )
}

/// The mount that hides one excluded path, or why it is refused.
pub open spec fn exclude_step(data_dir: Seq<char>, workspace_id: Seq<char>, rel: Seq<char>) -> Result<MountView, Seq<char>> {
    if has_parent_component(rel) {
        Err("shared file path must not contain .."@)
    } else {
        Ok(MountView::PrivateDir(private_dir_of(data_dir, workspace_id, rel), "/home/coder/.local/share/code-server/"@ + rel))
    }
}

/// The steps for shared paths, stopping at the first refused one.
pub open spec fn shared_path_steps(shared_dir: Seq<char>, files: Seq<Seq<char>>) -> (Seq<MountView>, Option<Seq<char>>)
    decreases files.len(),
{
    if files.len() == 0 {
        (Seq::empty(), None)
    } else {
        let (steps, err) = shared_path_steps(shared_dir, files.drop_last());
        if err is Some {
            (steps, err)
        } else {
            match shared_path_step(shared_dir, files.last()) {
                Ok(m) => (steps.push(m), None),
                Err(e) => (steps, Some(e)),
            }
        }
    }
}

/// The steps for excluded paths, stopping at the first refused one.
pub open spec fn exclude_steps(data_dir: Seq<char>, workspace_id: Seq<char>, excludes: Seq<Seq<char>>) -> (Seq<MountView>, Option<Seq<char>>)
    decreases excludes.len(),
{
    if excludes.len() == 0 {
        (Seq::empty(), None)
    } else {
        let (steps, err) = exclude_steps(data_dir, workspace_id, excludes.drop_last());
        if err is Some {
            (steps, err)
        } else {
            match exclude_step(data_dir, workspace_id, excludes.last()) {
                Ok(m) => (steps.push(m), None),
                Err(e) => (steps, Some(e)),
            }
        }
    }
}

/// What `plan_shared_mounts` returns.
pub open spec fn planned_mounts(
    data_dir: Seq<char>,
    strategy: WorkspaceSharedData,
    files: Seq<Seq<char>>,
    excludes: Seq<Seq<char>>,
    workspace_id: Seq<char>,
    login: Seq<char>,
) -> (Seq<MountView>, Option<Seq<char>>) {
    match shared_dir_of(data_dir, strategy, login) {
        None => (Seq::empty(), None),
        Some(dir) => {
            let (s1, e1) = if files.len() == 0 {
                (seq![MountView::SharedRoot(dir)], None)
            } else {
                shared_path_steps(dir, files)
            };
            if e1 is Some {
                (s1, e1)
            } else {
                let (s2, e2) = exclude_steps(data_dir, workspace_id, excludes);
                (s1 + s2, e2)
            }
        },
    }
}

/// The shared code-server data directory of this strategy, if any.
pub fn shared_code_server_data_dir(data_dir: &str, strategy: WorkspaceSharedData, user_login: &str) -> (res: Option<String>)
    ensures
        match res {
            Some(d) => shared_dir_of(data_dir@, strategy, user_login@) == Some(d@),
            None => shared_dir_of(data_dir@, strategy, user_login@) is None,
        },
{
    match strategy {
        WorkspaceSharedData::Unshared => None,
        WorkspaceSharedData::Global => Some(join_path(data_dir, "shared-code-server/global")),
        WorkspaceSharedData::User => {
            let users = join_path(data_dir, "shared-code-server/users");
            let login = crate::naming::slug_component(user_login, 48);
            Some(join_path(users.as_str(), login.as_str()))
        },
    }
}

proof fn lemma_shared_error_sticky(dir: Seq<char>, files: Seq<Seq<char>>, k: int)
    requires
        0 <= k <= files.len(),
        shared_path_steps(dir, files.take(k)).1 is Some,
    ensures
        shared_path_steps(dir, files) == shared_path_steps(dir, files.take(k)),
    decreases files.len() - k,
{
    if k < files.len() {
        assert(files.drop_last().take(k) =~= files.take(k));
        lemma_shared_error_sticky(dir, files.drop_last(), k);
    } else {
        assert(files.take(k) =~= files);
    }
}

proof fn lemma_exclude_error_sticky(data_dir: Seq<char>, id: Seq<char>, ex: Seq<Seq<char>>, k: int)
    requires
        0 <= k <= ex.len(),
        exclude_steps(data_dir, id, ex.take(k)).1 is Some,
    ensures
        exclude_steps(data_dir, id, ex) == exclude_steps(data_dir, id, ex.take(k)),
    decreases ex.len() - k,
{
    if k < ex.len() {
        assert(ex.drop_last().take(k) =~= ex.take(k));
        lemma_exclude_error_sticky(data_dir, id, ex.drop_last(), k);
    } else {
        assert(ex.take(k) =~= ex);
    }
}

proof fn lemma_steps_push(steps: Seq<MountStep>, m: MountStep)
    ensures
        steps_view(steps.push(m)) == steps_view(steps).push(step_view(m)),
{
    assert(steps_view(steps.push(m)) =~= steps_view(steps).push(step_view(m)));
}

/// The bind mounts that share code-server data for this workspace, in
/// order, and the error that stops the list, if any.
pub fn plan_shared_mounts(
    data_dir: &str,
    strategy: WorkspaceSharedData,
    shared_files: &Vec<String>,
    shared_excludes: &Vec<String>,
    workspace_id: &str,
    user_login: &str,
) -> (res: MountPlan)
    ensures
        (steps_view(res.steps@), crate::config::opt_string_view(res.error)) == planned_mounts(
            data_dir@,
            strategy,
            string_views(shared_files@),
            string_views(shared_excludes@),
            workspace_id@,
            user_login@,
        ),
{
    let mut steps: Vec<MountStep> = Vec::new();
    proof {
        assert(steps_view(steps@) =~= Seq::<MountView>::empty());
    }
    let shared_dir = match shared_code_server_data_dir(data_dir, strategy, user_login) {
        Some(d) => d,
        None => return MountPlan { steps, error: None },
    };
    let ghost files = string_views(shared_files@);
    if shared_files.len() == 0 {
        steps.push(MountStep::SharedRoot { host_dir: shared_dir });
        proof {
            lemma_steps_push(Seq::empty(), steps@[0]);
            assert(steps@ =~= Seq::<MountStep>::empty().push(steps@[0]));
        }
    } else {
        let mut i: usize = 0;
        proof {
            assert(files.take(0) =~= Seq::<Seq<char>>::empty());
        }
        while i < shared_files.len()
            invariant
                i <= shared_files@.len(),
                files == string_views(shared_files@),
                shared_dir_of(data_dir@, strategy, user_login@) == Some(shared_dir@),
                shared_path_steps(shared_dir@, files.take(i as int)) == (steps_view(steps@), None::<Seq<char>>),
            decreases shared_files@.len() - i,
        {
            let p = shared_files[i].as_str();
            proof {
                assert(files.take(i + 1).drop_last() =~= files.take(i as int));
                assert(files.take(i + 1).last() == p@);
            }
            if let Err(e) = validate_shared_file_path(p) {
                proof {
                    lemma_shared_error_sticky(shared_dir@, files, i + 1);
                }
                return MountPlan { steps, error: Some(e) };
            }
            let storage = match shared_file_storage_path(p) {
                Ok(s) => s,
                Err(e) => {
                    proof {
                        lemma_shared_error_sticky(shared_dir@, files, i + 1);
                    }
                    return MountPlan { steps, error: Some(e) };
                },
            };
            let mount_path = shared_file_container_path(p);
            let host_path = join_path(shared_dir.as_str(), storage.as_str());
            let is_file = shared_path_is_probably_file(p);
            let step = MountStep::SharedPath { host_path, container_path: mount_path, is_file };
            proof {
                lemma_steps_push(steps@, step);
            }
            steps.push(step);
            i = i + 1;
        }
        proof {
            assert(files.take(i as int) =~= files);
        }
    }
    let ghost first = steps_view(steps@);
    let ghost excludes = string_views(shared_excludes@);
    let mut j: usize = 0;
    proof {
        assert(excludes.take(0) =~= Seq::<Seq<char>>::empty());
        assert(first + Seq::<MountView>::empty() =~= first);
    }
    while j < shared_excludes.len()
        invariant
            j <= shared_excludes@.len(),
            excludes == string_views(shared_excludes@),
            steps_view(steps@) == first + exclude_steps(data_dir@, workspace_id@, excludes.take(j as int)).0,
            files == string_views(shared_files@),
            shared_dir_of(data_dir@, strategy, user_login@) == Some(shared_dir@),
            first == (if files.len() == 0 {
                seq![MountView::SharedRoot(shared_dir@)]
            } else {
                shared_path_steps(shared_dir@, files).0
            }),
            files.len() == 0 || shared_path_steps(shared_dir@, files).1 is None,
            exclude_steps(data_dir@, workspace_id@, excludes.take(j as int)).1 is None,
        decreases shared_excludes@.len() - j,
    {
        let rel = shared_excludes[j].as_str();
        proof {
            assert(excludes.take(j + 1).drop_last() =~= excludes.take(j as int));
            assert(excludes.take(j + 1).last() == rel@);
        }
        if let Err(e) = validate_shared_file_path(rel) {
            proof {
                lemma_exclude_error_sticky(data_dir@, workspace_id@, excludes, j + 1);
            }
            return MountPlan { steps, error: Some(e) };
        }
        let a = join_path(data_dir, "workspaces");
        let b = join_path(a.as_str(), workspace_id);
        let c = join_path(b.as_str(), "private-code-server");
        let host_dir = join_path(c.as_str(), rel);
        let container = concat("/home/coder/.local/share/code-server/", rel);
        let step = MountStep::PrivateDir { host_dir, container_path: container };
        proof {
            lemma_steps_push(steps@, step);
            let prev = exclude_steps(data_dir@, workspace_id@, excludes.take(j as int)).0;
            assert(first + prev.push(step_view(step)) =~= (first + prev).push(step_view(step)));
        }
        steps.push(step);
        j = j + 1;
    }
    proof {
        assert(excludes.take(j as int) =~= excludes);
    }
    MountPlan { steps, error: None }
}


// ---------------------------------------------------------------------------
// Laws
// ---------------------------------------------------------------------------
proof fn lemma_shared_steps_are_shared_paths(dir: Seq<char>, files: Seq<Seq<char>>)
    ensures
        forall|i: int|
            0 <= i < shared_path_steps(dir, files).0.len() ==> (#[trigger] shared_path_steps(
                dir,
                files,
            ).0[i]) is SharedPath,
    decreases files.len(),
{
    if files.len() > 0 {
        lemma_shared_steps_are_shared_paths(dir, files.drop_last());
    }
}

proof fn lemma_exclude_steps_in_order(data_dir: Seq<char>, id: Seq<char>, ex: Seq<Seq<char>>)
    requires
        exclude_steps(data_dir, id, ex).1 is None,
    ensures
        exclude_steps(data_dir, id, ex).0.len() == ex.len(),
        forall|i: int|
            0 <= i < ex.len() ==> #[trigger] exclude_steps(data_dir, id, ex).0[i]
                == MountView::PrivateDir(
                path_join(
                    path_join(path_join(path_join(data_dir, "workspaces"@), id), "private-code-server"@),
                    ex[i],
                ),
                "/home/coder/.local/share/code-server/"@ + ex[i],
            ),
    decreases ex.len(),
{
    if ex.len() > 0 {
        lemma_exclude_steps_in_order(data_dir, id, ex.drop_last());
        assert forall|i: int| 0 <= i < ex.len() - 1 implies ex.drop_last()[i] == ex[i] by {}
    }
}

/// When the strategy shares a directory and no path is refused, the plan
/// ends with one private directory per excluded path, in the order of the
/// excludes, whether the whole directory or single files are shared; the
/// mounts before them share data and hide none.
pub proof fn lemma_excludes_close_the_plan(
    data_dir: Seq<char>,
    strategy: WorkspaceSharedData,
    files: Seq<Seq<char>>,
    excludes: Seq<Seq<char>>,
    workspace_id: Seq<char>,
    login: Seq<char>,
)
    requires
        shared_dir_of(data_dir, strategy, login) is Some,
        planned_mounts(data_dir, strategy, files, excludes, workspace_id, login).1 is None,
    ensures
        ({
            let steps = planned_mounts(data_dir, strategy, files, excludes, workspace_id, login).0;
            &&& steps.len() >= excludes.len()
            &&& forall|i: int|
                0 <= i < excludes.len() ==> #[trigger] steps[steps.len() - excludes.len() + i]
                    == MountView::PrivateDir(
                    path_join(
                        path_join(
                            path_join(path_join(data_dir, "workspaces"@), workspace_id),
                            "private-code-server"@,
                        ),
                        excludes[i],
                    ),
                    "/home/coder/.local/share/code-server/"@ + excludes[i],
                )
            &&& forall|i: int|
                0 <= i < steps.len() - excludes.len() ==> !((#[trigger] steps[i]) is PrivateDir)
        }),
{
    let dir = shared_dir_of(data_dir, strategy, login)->0;
    let s1 = if files.len() == 0 {
        seq![MountView::SharedRoot(dir)]
    } else {
        shared_path_steps(dir, files).0
    };
    lemma_shared_steps_are_shared_paths(dir, files);
    lemma_exclude_steps_in_order(data_dir, workspace_id, excludes);
    let s2 = exclude_steps(data_dir, workspace_id, excludes).0;
    let steps = planned_mounts(data_dir, strategy, files, excludes, workspace_id, login).0;
    assert(steps == s1 + s2);
    assert forall|i: int| 0 <= i < excludes.len() implies #[trigger] steps[steps.len()
        - excludes.len() + i] == s2[i] by {}
    assert forall|i: int| 0 <= i < steps.len() - excludes.len() implies !((#[trigger] steps[i]) is PrivateDir) by {
        assert(steps[i] == s1[i]);
    }
}

} // verus!
