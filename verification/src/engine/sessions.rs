//! Projects and chats.
//!
//! Projects are the top level; each owns a folder, and chats live under a project. A chat keeps
//! a copy of its folder, so that it goes on working there whatever becomes of the project.

use vstd::prelude::*;

use crate::engine::agent::ProjectContext;
use crate::engine::config::default_context_window;
use crate::engine::repair::{
    answered, called, healthy, healthy_history_is_unchanged, repair_is_idempotent,
    repair_tool_calls, repaired, repairs, tools_only_answer,
};
use crate::engine::{
    checked_keep_split, copy_msgs, msgs, split_point, splittable, Msg, MsgV, KEEP_RECENT,
    MIN_COMPACT_GAIN,
};
use crate::json::{
    a_field_reads_back, copy_jsons, json_parse, jsons, no_field_to_read, obj, object, parse, Json,
    JsonV,
};
use crate::paths::{
    absolute_workspace, may_be_same, may_lead_to, same_path, verbatim, Folder, Place,
};
use crate::text::{blank, decimal, decimal_of, ends, is_blank, opt_text, same, texts, trim, trim_of};

pub use crate::paths::is_scratch;

verus! {

/// The project for one-off work that belongs to no repository. It has a real folder, so that a
/// chat there never borrows the folder of some other project.
pub const DEFAULT_PROJECT: &'static str = "Tasks";

#[derive(Debug)]
pub struct ProjectMeta {
    pub id: String,
    pub name: String,
    pub workspace: String,
    pub created: u64,
}

#[derive(Debug)]
pub struct SessionMeta {
    pub id: String,
    pub name: String,
    pub created: u64,
    pub workspace: String,
    pub project: String,
    pub model: String,
    /// The provider that serves `model`; empty where it has to be looked up.
    pub provider: String,
    pub state: String,
    /// Whether the workspace is a worktree that was made for this chat.
    pub managed_worktree: bool,
    /// The repository that the worktree belongs to.
    pub worktree_base: String,
    /// The branch that was made for the worktree.
    pub worktree_branch: String,
}

/// The projects and the chats, and which of each is open.
#[derive(Debug)]
pub struct SessionStore {
    pub sessions: Vec<SessionMeta>,
    pub projects: Vec<ProjectMeta>,
    pub current: String,
    pub current_project: String,
}

pub struct ProjectMetaV {
    pub id: Seq<char>,
    pub name: Seq<char>,
    pub workspace: Seq<char>,
    pub created: u64,
}

pub struct SessionV {
    pub id: Seq<char>,
    pub name: Seq<char>,
    pub created: u64,
    pub workspace: Seq<char>,
    pub project: Seq<char>,
    pub model: Seq<char>,
    pub provider: Seq<char>,
    pub state: Seq<char>,
    pub managed_worktree: bool,
    pub worktree_base: Seq<char>,
    pub worktree_branch: Seq<char>,
}

pub struct StoreV {
    pub sessions: Seq<SessionV>,
    pub projects: Seq<ProjectMetaV>,
    pub current: Seq<char>,
    pub current_project: Seq<char>,
}

impl View for ProjectMeta {
    type V = ProjectMetaV;

    open spec fn view(&self) -> ProjectMetaV {
        ProjectMetaV {
            id: self.id@,
            name: self.name@,
            workspace: self.workspace@,
            created: self.created,
        }
    }
}

impl View for SessionMeta {
    type V = SessionV;

    open spec fn view(&self) -> SessionV {
        SessionV {
            id: self.id@,
            name: self.name@,
            created: self.created,
            workspace: self.workspace@,
            project: self.project@,
            model: self.model@,
            provider: self.provider@,
            state: self.state@,
            managed_worktree: self.managed_worktree,
            worktree_base: self.worktree_base@,
            worktree_branch: self.worktree_branch@,
        }
    }
}

pub open spec fn projects_view(v: Seq<ProjectMeta>) -> Seq<ProjectMetaV> {
    Seq::new(v.len(), |i: int| v[i]@)
}

pub open spec fn sessions_view(v: Seq<SessionMeta>) -> Seq<SessionV> {
    Seq::new(v.len(), |i: int| v[i]@)
}

impl View for SessionStore {
    type V = StoreV;

    open spec fn view(&self) -> StoreV {
        StoreV {
            sessions: sessions_view(self.sessions@),
            projects: projects_view(self.projects@),
            current: self.current@,
            current_project: self.current_project@,
        }
    }
}

impl Clone for ProjectMeta {
    fn clone(&self) -> (r: ProjectMeta)
        ensures
            r@ == self@,
    {
        ProjectMeta {
            id: self.id.clone(),
            name: self.name.clone(),
            workspace: self.workspace.clone(),
            created: self.created,
        }
    }
}

impl Clone for SessionMeta {
    fn clone(&self) -> (r: SessionMeta)
        ensures
            r@ == self@,
    {
        SessionMeta {
            id: self.id.clone(),
            name: self.name.clone(),
            created: self.created,
            workspace: self.workspace.clone(),
            project: self.project.clone(),
            model: self.model.clone(),
            provider: self.provider.clone(),
            state: self.state.clone(),
            managed_worktree: self.managed_worktree,
            worktree_base: self.worktree_base.clone(),
            worktree_branch: self.worktree_branch.clone(),
        }
    }
}

// ---- looking things up -----------------------------------------------------------------------

/// The first project with an id.
pub open spec fn find_project(ps: Seq<ProjectMetaV>, id: Seq<char>) -> Option<int>
    decreases ps.len(),
{
    if ps.len() == 0 {
        None
    } else {
        match find_project(ps.drop_last(), id) {
            Some(i) => Some(i),
            None => if ps.last().id == id {
                Some(ps.len() - 1)
            } else {
                None
            },
        }
    }
}

/// The first chat with an id.
pub open spec fn find_session(ss: Seq<SessionV>, id: Seq<char>) -> Option<int>
    decreases ss.len(),
{
    if ss.len() == 0 {
        None
    } else {
        match find_session(ss.drop_last(), id) {
            Some(i) => Some(i),
            None => if ss.last().id == id {
                Some(ss.len() - 1)
            } else {
                None
            },
        }
    }
}

pub proof fn found_project(ps: Seq<ProjectMetaV>, id: Seq<char>)
    ensures
        find_project(ps, id) matches Some(i) ==> 0 <= i < ps.len() && ps[i].id == id && forall|j: int|
            0 <= j < i ==> (#[trigger] ps[j]).id != id,
        find_project(ps, id) is None ==> forall|j: int|
            0 <= j < ps.len() ==> (#[trigger] ps[j]).id != id,
    decreases ps.len(),
{
    if ps.len() > 0 {
        let d = ps.drop_last();
        found_project(d, id);
        assert forall|j: int| 0 <= j < d.len() implies d[j] == ps[j] by {}
    }
}

pub proof fn found_session(ss: Seq<SessionV>, id: Seq<char>)
    ensures
        find_session(ss, id) matches Some(i) ==> 0 <= i < ss.len() && ss[i].id == id && forall|j: int|
            0 <= j < i ==> (#[trigger] ss[j]).id != id,
        find_session(ss, id) is None ==> forall|j: int|
            0 <= j < ss.len() ==> (#[trigger] ss[j]).id != id,
    decreases ss.len(),
{
    if ss.len() > 0 {
        let d = ss.drop_last();
        found_session(d, id);
        assert forall|j: int| 0 <= j < d.len() implies d[j] == ss[j] by {}
    }
}

fn project_at(ps: &Vec<ProjectMeta>, id: &str) -> (r: Option<usize>)
    ensures
        match r {
            Some(i) => i < ps.len() && find_project(projects_view(ps@), id@) == Some(i as int),
            None => find_project(projects_view(ps@), id@) is None,
        },
{
    let ghost v = projects_view(ps@);
    let mut i: usize = 0;
    while i < ps.len()
        invariant
            i <= ps.len(),
            v == projects_view(ps@),
            forall|j: int| 0 <= j < i ==> (#[trigger] v[j]).id != id@,
        decreases ps.len() - i,
    {
        assert(v[i as int] == ps@[i as int]@);
        if same(ps[i].id.as_str(), id) {
            proof {
                found_project(v, id@);
                let k = find_project(v, id@);
                if k is None {
                    assert(v[i as int].id != id@);
                } else {
                    assert(v[k->0].id == id@);
                    if i < k->0 {
                        assert(v[i as int].id != id@);
                    }
                }
            }
            return Some(i);
        }
        i += 1;
    }
    proof {
        found_project(v, id@);
    }
    None
}

fn session_at(ss: &Vec<SessionMeta>, id: &str) -> (r: Option<usize>)
    ensures
        match r {
            Some(i) => i < ss.len() && find_session(sessions_view(ss@), id@) == Some(i as int),
            None => find_session(sessions_view(ss@), id@) is None,
        },
{
    let ghost v = sessions_view(ss@);
    let mut i: usize = 0;
    while i < ss.len()
        invariant
            i <= ss.len(),
            v == sessions_view(ss@),
            forall|j: int| 0 <= j < i ==> (#[trigger] v[j]).id != id@,
        decreases ss.len() - i,
    {
        assert(v[i as int] == ss@[i as int]@);
        if same(ss[i].id.as_str(), id) {
            proof {
                found_session(v, id@);
                let k = find_session(v, id@);
                if k is None {
                    assert(v[i as int].id != id@);
                } else {
                    assert(v[k->0].id == id@);
                    if i < k->0 {
                        assert(v[i as int].id != id@);
                    }
                }
            }
            return Some(i);
        }
        i += 1;
    }
    proof {
        found_session(v, id@);
    }
    None
}

/// The folder of a project, empty where there is no such project.
pub open spec fn folder_of(st: StoreV, id: Seq<char>) -> Seq<char> {
    match find_project(st.projects, id) {
        Some(i) => st.projects[i].workspace,
        None => Seq::empty(),
    }
}

/// The project that a chat is filed under; the open one where it is under none.
pub open spec fn home_of(st: StoreV, id: Seq<char>) -> Seq<char> {
    match find_session(st.sessions, id) {
        Some(i) => if blank(st.sessions[i].project) {
            st.current_project
        } else {
            st.sessions[i].project
        },
        None => st.current_project,
    }
}

/// The folder that a chat runs in: its own, else its project's, else the one for one-off work.
/// Never any other.
pub open spec fn workspace_of(st: StoreV, id: Seq<char>, scratch: Seq<char>) -> Seq<char> {
    let own = match find_session(st.sessions, id) {
        Some(i) => st.sessions[i].workspace,
        None => Seq::empty(),
    };
    if !blank(own) {
        trim_of(own)
    } else if blank(folder_of(st, home_of(st, id))) {
        scratch
    } else {
        folder_of(st, home_of(st, id))
    }
}

/// The name of the project that a chat is filed under.
pub open spec fn project_name_of(st: StoreV, id: Seq<char>) -> Seq<char> {
    match find_project(st.projects, home_of(st, id)) {
        Some(i) => st.projects[i].name,
        None => Seq::empty(),
    }
}

/// Whether a chat is somewhere else than the project it is filed under, given whether the two
/// folders are the same to the machine.
pub open spec fn is_detached(st: StoreV, id: Seq<char>, at_home: bool) -> bool {
    !blank(folder_of(st, home_of(st, id))) && !at_home
}

/// Whether a machine may make a chat detached, or not: what is certain is a chat in a folder with
/// other letters than that of its project, which is, and one in the very folder, which is not.
pub open spec fn may_be_detached(
    st: StoreV,
    id: Seq<char>,
    scratch: Seq<char>,
    detached: bool,
) -> bool {
    let home = folder_of(st, home_of(st, id));
    if blank(home) {
        !detached
    } else {
        may_be_same(workspace_of(st, id, scratch), trim_of(home), !detached)
    }
}

// ---- migration ---------------------------------------------------------------------------------

/// The names that the default project went by before.
pub open spec fn legacy_name(name: Seq<char>) -> bool {
    trim_of(name) == "Default"@ || trim_of(name) == "Chats"@
}

pub open spec fn default_id(st: StoreV) -> Seq<char> {
    if st.projects.len() > 0 {
        st.projects[0].id
    } else {
        Seq::empty()
    }
}

/// A project with a folder: one without gets the folder for one-off work, and its name where it
/// is the default project; another is pinned where its path is relative and names a folder.
pub open spec fn settled_project(
    p: ProjectMetaV,
    first: Seq<char>,
    scratch: Seq<char>,
    pin: Option<Seq<char>>,
) -> ProjectMetaV {
    if blank(p.workspace) {
        ProjectMetaV {
            workspace: scratch,
            name: if p.id == first || legacy_name(p.name) {
                DEFAULT_PROJECT@
            } else {
                p.name
            },
            ..p
        }
    } else {
        match pin {
            Some(abs) => ProjectMetaV { workspace: abs, ..p },
            None => p,
        }
    }
}

pub open spec fn settled_projects(
    st: StoreV,
    scratch: Seq<char>,
    pins: Seq<Option<Seq<char>>>,
) -> Seq<ProjectMetaV> {
    Seq::new(
        st.projects.len(),
        |i: int| settled_project(st.projects[i], default_id(st), scratch, pins[i]),
    )
}

/// A chat under a project and with a folder, as far as there is one to give.
pub open spec fn settled_session(
    s: SessionV,
    first: Seq<char>,
    projects: Seq<ProjectMetaV>,
) -> SessionV {
    let project = if blank(s.project) && first.len() > 0 {
        first
    } else {
        s.project
    };
    let ws = match find_project(projects, project) {
        Some(i) => projects[i].workspace,
        None => Seq::empty(),
    };
    SessionV {
        project,
        workspace: if blank(s.workspace) && ws.len() > 0 {
            ws
        } else {
            s.workspace
        },
        ..s
    }
}

/// The store after its migration. `pins` holds, for each project, its folder made absolute
/// where that is a folder that exists.
pub open spec fn migrated(
    st: StoreV,
    scratch: Seq<char>,
    pins: Seq<Option<Seq<char>>>,
) -> StoreV {
    let projects = settled_projects(st, scratch, pins);
    StoreV {
        projects,
        sessions: Seq::new(
            st.sessions.len(),
            |i: int| settled_session(st.sessions[i], default_id(st), projects),
        ),
        ..st
    }
}

pub open spec fn pins_view(v: Seq<Option<String>>) -> Seq<Option<Seq<char>>> {
    Seq::new(v.len(), |i: int| opt_text(v[i]))
}

/// Whether a migration changes a project.
pub open spec fn unsettled_project(p: ProjectMetaV, pin: Option<Seq<char>>) -> bool {
    blank(p.workspace) || (pin matches Some(abs) && abs != p.workspace)
}

/// Whether a migration changes a chat.
pub open spec fn unsettled_session(
    s: SessionV,
    first: Seq<char>,
    projects: Seq<ProjectMetaV>,
) -> bool {
    let r = settled_session(s, first, projects);
    ||| blank(s.project) && first.len() > 0
    ||| blank(s.workspace) && (match find_project(projects, r.project) {
        Some(i) => projects[i].workspace.len() > 0,
        None => false,
    })
}

pub open spec fn unsettled(st: StoreV, scratch: Seq<char>, pins: Seq<Option<Seq<char>>>) -> bool {
    let projects = settled_projects(st, scratch, pins);
    ||| exists|i: int|
        0 <= i < st.projects.len() && unsettled_project(#[trigger] st.projects[i], pins[i])
    ||| exists|i: int|
        0 <= i < st.sessions.len() && unsettled_session(
            #[trigger] st.sessions[i],
            default_id(st),
            projects,
        )
}

// ---- what the operations do ----------------------------------------------------------------------

/// The name of a new project: the one given, that of the default project in the folder for
/// one-off work, or that of the folder.
pub open spec fn new_project_name(name: Seq<char>, folder: Folder) -> Seq<char> {
    if !blank(name) {
        trim_of(name)
    } else if folder.scratch {
        DEFAULT_PROJECT@
    } else {
        folder.name@
    }
}

pub open spec fn new_project(name: Seq<char>, folder: Folder, now: u64) -> ProjectMetaV {
    ProjectMetaV {
        id: "p"@ + decimal_of(now as nat),
        name: new_project_name(name, folder),
        workspace: folder.path@,
        created: now,
    }
}

pub open spec fn with_project(st: StoreV, p: ProjectMetaV) -> StoreV {
    StoreV { projects: st.projects.push(p), current_project: p.id, ..st }
}

/// How many chats a project has.
pub open spec fn chats_in(ss: Seq<SessionV>, project: Seq<char>) -> nat
    decreases ss.len(),
{
    if ss.len() == 0 {
        0
    } else {
        chats_in(ss.drop_last(), project) + if ss.last().project == project {
            1nat
        } else {
            0nat
        }
    }
}

/// The name of a new chat: the one given, or a numbered one.
pub open spec fn new_chat_name(name: Seq<char>, n: nat) -> Seq<char> {
    if !blank(name) {
        trim_of(name)
    } else if n == 1 {
        "New task"@
    } else {
        "New task "@ + decimal_of(n)
    }
}

pub open spec fn new_chat(
    st: StoreV,
    name: Seq<char>,
    folder: Option<Seq<char>>,
    model: Seq<char>,
    provider: Seq<char>,
    scratch: Seq<char>,
    now: u64,
) -> SessionV {
    SessionV {
        id: "s"@ + decimal_of(now as nat),
        name: new_chat_name(name, chats_in(st.sessions, st.current_project) + 1),
        created: now,
        workspace: match folder {
            Some(f) => f,
            None => if blank(folder_of(st, st.current_project)) {
                scratch
            } else {
                folder_of(st, st.current_project)
            },
        },
        project: st.current_project,
        model: trim_of(model),
        provider: trim_of(provider),
        state: Seq::empty(),
        managed_worktree: false,
        worktree_base: Seq::empty(),
        worktree_branch: Seq::empty(),
    }
}

pub open spec fn with_chat(st: StoreV, s: SessionV) -> StoreV {
    StoreV { sessions: st.sessions.push(s), current: s.id, ..st }
}

/// A copy of a chat under a new id. It does not own the worktree of the chat that it copies.
pub open spec fn forked(src: SessionV, name: Seq<char>, now: u64) -> SessionV {
    SessionV {
        id: "s"@ + decimal_of(now as nat),
        name: if blank(name) {
            src.name + " (fork)"@
        } else {
            trim_of(name)
        },
        created: now,
        managed_worktree: false,
        worktree_base: Seq::empty(),
        worktree_branch: Seq::empty(),
        ..src
    }
}

/// The store with a project in another folder: its chats move with it.
pub open spec fn moved(st: StoreV, i: int, ws: Seq<char>) -> StoreV {
    let id = st.projects[i].id;
    StoreV {
        projects: st.projects.update(i, ProjectMetaV { workspace: ws, ..st.projects[i] }),
        sessions: Seq::new(
            st.sessions.len(),
            |k: int|
                if st.sessions[k].project == id {
                    SessionV { workspace: ws, ..st.sessions[k] }
                } else {
                    st.sessions[k]
                },
        ),
        ..st
    }
}

pub open spec fn projects_without(ps: Seq<ProjectMetaV>, id: Seq<char>) -> Seq<ProjectMetaV>
    decreases ps.len(),
{
    if ps.len() == 0 {
        Seq::empty()
    } else if ps.last().id == id {
        projects_without(ps.drop_last(), id)
    } else {
        projects_without(ps.drop_last(), id).push(ps.last())
    }
}

pub open spec fn sessions_without(ss: Seq<SessionV>, id: Seq<char>) -> Seq<SessionV>
    decreases ss.len(),
{
    if ss.len() == 0 {
        Seq::empty()
    } else if ss.last().id == id {
        sessions_without(ss.drop_last(), id)
    } else {
        sessions_without(ss.drop_last(), id).push(ss.last())
    }
}

/// The store without a project. Its chats are filed under the first project that is left and
/// keep their own folders; nothing else changes.
pub open spec fn without_project(st: StoreV, id: Seq<char>) -> StoreV {
    let left = projects_without(st.projects, id);
    if left.len() == 0 {
        StoreV { projects: left, ..st }
    } else {
        StoreV {
            projects: left,
            sessions: Seq::new(
                st.sessions.len(),
                |k: int|
                    if st.sessions[k].project == id {
                        SessionV { project: left[0].id, ..st.sessions[k] }
                    } else {
                        st.sessions[k]
                    },
            ),
            current: st.current,
            current_project: if st.current_project == id {
                left[0].id
            } else {
                st.current_project
            },
        }
    }
}

/// The store without a chat. Where that was the open one, the first one left is opened.
pub open spec fn without_chat(st: StoreV, id: Seq<char>) -> StoreV {
    let left = sessions_without(st.sessions, id);
    StoreV {
        sessions: left,
        current: if st.current == id {
            if left.len() > 0 {
                left[0].id
            } else {
                Seq::empty()
            }
        } else {
            st.current
        },
        ..st
    }
}

pub open spec fn chats_of(ss: Seq<SessionV>, project: Seq<char>) -> Seq<SessionV>
    decreases ss.len(),
{
    if ss.len() == 0 {
        Seq::empty()
    } else if ss.last().project == project {
        chats_of(ss.drop_last(), project).push(ss.last())
    } else {
        chats_of(ss.drop_last(), project)
    }
}

fn numbered(prefix: &str, n: u64) -> (r: String)
    ensures
        r@ == prefix@ + decimal_of(n as nat),
{
    let mut s = prefix.to_string();
    s.append(decimal(n).as_str());
    s
}

proof fn chats_in_bound(ss: Seq<SessionV>, project: Seq<char>)
    ensures
        chats_in(ss, project) <= ss.len(),
    decreases ss.len(),
{
    if ss.len() > 0 {
        chats_in_bound(ss.drop_last(), project);
    }
}

/// The folder that was asked for, made absolute; none where none was named.
pub fn chosen_folder(workspace: &str, place: &Place) -> (r: Option<String>)
    ensures
        r is None <==> blank(workspace@),
        r matches Some(f) ==> may_lead_to(place.cwd@, trim_of(workspace@), f@),
        r matches Some(f) ==> !verbatim(place.cwd@) ==> ends(f@, trim_of(workspace@)),
{
    if is_blank(workspace) {
        None
    } else {
        Some(absolute_workspace(workspace, place.cwd.as_str()))
    }
}

impl SessionStore {
    /// The folder that a chat runs in: its own, else its project's, else the one for one-off
    /// work. It never falls back to a global setting, which would run the tools of one project
    /// in the folder of another.
    pub fn resolved_workspace(&self, id: &str, place: &Place) -> (r: String)
        ensures
            r@ == workspace_of(self@, id@, place.scratch@),
    {
        let home = self.home(id);
        match session_at(&self.sessions, id) {
            Some(i) => {
                assert(self@.sessions[i as int] == self.sessions@[i as int]@);
                if !is_blank(self.sessions[i].workspace.as_str()) {
                    return trim(self.sessions[i].workspace.as_str());
                }
            },
            None => {},
        }
        let pw = self.project_workspace(home.as_str());
        if is_blank(pw.as_str()) {
            place.scratch.clone()
        } else {
            pw
        }
    }

    fn home(&self, id: &str) -> (r: String)
        ensures
            r@ == home_of(self@, id@),
    {
        match session_at(&self.sessions, id) {
            Some(i) => {
                assert(self@.sessions[i as int] == self.sessions@[i as int]@);
                if is_blank(self.sessions[i].project.as_str()) {
                    self.current_project.clone()
                } else {
                    self.sessions[i].project.clone()
                }
            },
            None => self.current_project.clone(),
        }
    }

    /// What the agent is told about where a chat works, once it is known whether its folder is
    /// the one for one-off work and whether it is that of its project.
    pub fn context_with(&self, id: &str, at_scratch: bool, at_home: bool) -> (r: ProjectContext)
        ensures
            r.name@ == project_name_of(self@, id@),
            r.scratch == at_scratch,
            r.detached == is_detached(self@, id@, at_home),
    {
        let home = self.home(id);
        match project_at(&self.projects, home.as_str()) {
            Some(i) => {
                assert(self@.projects[i as int] == self.projects@[i as int]@);
                let bare: bool = is_blank(self.projects[i].workspace.as_str());
                ProjectContext {
                    name: self.projects[i].name.clone(),
                    scratch: at_scratch,
                    detached: !bare && !at_home,
                }
            },
            None => ProjectContext { name: String::new(), scratch: at_scratch, detached: false },
        }
    }

    /// What the agent is told about where a chat works. A chat whose project was deleted is
    /// filed under another one but keeps its folder; it is then detached, and the name of that
    /// project is only a label. Whether two different texts name one folder is up to the
    /// machine.
    pub fn project_context(&self, id: &str, place: &Place) -> (r: ProjectContext)
        ensures
            r.name@ == project_name_of(self@, id@),
            ({
                let ws = workspace_of(self@, id@, place.scratch@);
                &&& may_be_detached(self@, id@, place.scratch@, r.detached)
                &&& blank(ws) ==> !r.scratch
                &&& !blank(ws) ==> may_be_same(trim_of(ws), place.scratch@, r.scratch)
            }),
    {
        let ws = self.resolved_workspace(id, place);
        let home = self.home(id);
        let folder = self.project_workspace(home.as_str());
        let t = trim(folder.as_str());
        let at_home: bool = same_path(ws.as_str(), t.as_str());
        let at_scratch: bool = is_scratch(ws.as_str(), place);
        self.context_with(id, at_scratch, at_home)
    }

    /// The model of a chat; empty for a chat that is not there.
    pub fn model(&self, id: &str) -> (r: String)
        ensures
            r@ == (match find_session(self@.sessions, id@) {
                Some(i) => self@.sessions[i].model,
                None => Seq::empty(),
            }),
    {
        match session_at(&self.sessions, id) {
            Some(i) => self.sessions[i].model.clone(),
            None => String::new(),
        }
    }

    /// Sets the model of a chat and the provider that serves it. Returns whether the chat is
    /// there.
    pub fn set_model(&mut self, id: &str, model: &str, provider: &str) -> (r: bool)
        ensures
            match find_session(old(self)@.sessions, id@) {
                Some(i) => r && final(self)@ == (StoreV {
                    sessions: old(self)@.sessions.update(
                        i,
                        SessionV { model: model@, provider: provider@, ..old(self)@.sessions[i] },
                    ),
                    ..old(self)@
                }),
                None => !r && final(self)@ == old(self)@,
            },
    {
        match session_at(&self.sessions, id) {
            Some(i) => {
                let ghost before = sessions_view(self.sessions@);
                self.sessions[i].model = model.to_string();
                self.sessions[i].provider = provider.to_string();
                assert(sessions_view(self.sessions@) =~= before.update(
                    i as int,
                    SessionV { model: model@, provider: provider@, ..before[i as int] },
                ));
                true
            },
            None => false,
        }
    }

    /// The provider of a chat's model; empty where it has to be looked up.
    pub fn provider(&self, id: &str) -> (r: String)
        ensures
            r@ == (match find_session(self@.sessions, id@) {
                Some(i) => self@.sessions[i].provider,
                None => Seq::empty(),
            }),
    {
        match session_at(&self.sessions, id) {
            Some(i) => self.sessions[i].provider.clone(),
            None => String::new(),
        }
    }

    /// Sets the state of a chat. Returns whether the chat is there.
    pub fn set_state(&mut self, id: &str, state: &str) -> (r: bool)
        ensures
            match find_session(old(self)@.sessions, id@) {
                Some(i) => r && final(self)@ == (StoreV {
                    sessions: old(self)@.sessions.update(
                        i,
                        SessionV { state: state@, ..old(self)@.sessions[i] },
                    ),
                    ..old(self)@
                }),
                None => !r && final(self)@ == old(self)@,
            },
    {
        match session_at(&self.sessions, id) {
            Some(i) => {
                let ghost before = sessions_view(self.sessions@);
                self.sessions[i].state = state.to_string();
                assert(sessions_view(self.sessions@) =~= before.update(
                    i as int,
                    SessionV { state: state@, ..before[i as int] },
                ));
                true
            },
            None => false,
        }
    }

    /// A chat.
    pub fn session(&self, id: &str) -> (r: Option<SessionMeta>)
        ensures
            match r {
                Some(s) => find_session(self@.sessions, id@) matches Some(i) && s@
                    == self@.sessions[i],
                None => find_session(self@.sessions, id@) is None,
            },
    {
        match session_at(&self.sessions, id) {
            Some(i) => Some(self.sessions[i].clone()),
            None => None,
        }
    }

    /// Records the worktree that was made for a chat, which runs there from then on. Returns
    /// whether the chat is there.
    pub fn set_managed_worktree(
        &mut self,
        id: &str,
        workspace: &str,
        base: &str,
        branch: &str,
    ) -> (r: bool)
        ensures
            match find_session(old(self)@.sessions, id@) {
                Some(i) => r && final(self)@ == (StoreV {
                    sessions: old(self)@.sessions.update(
                        i,
                        SessionV {
                            workspace: workspace@,
                            managed_worktree: true,
                            worktree_base: base@,
                            worktree_branch: branch@,
                            ..old(self)@.sessions[i]
                        },
                    ),
                    ..old(self)@
                }),
                None => !r && final(self)@ == old(self)@,
            },
    {
        match session_at(&self.sessions, id) {
            Some(i) => {
                let ghost before = sessions_view(self.sessions@);
                self.sessions[i].workspace = workspace.to_string();
                self.sessions[i].managed_worktree = true;
                self.sessions[i].worktree_base = base.to_string();
                self.sessions[i].worktree_branch = branch.to_string();
                assert(sessions_view(self.sessions@) =~= before.update(
                    i as int,
                    SessionV {
                        workspace: workspace@,
                        managed_worktree: true,
                        worktree_base: base@,
                        worktree_branch: branch@,
                        ..before[i as int]
                    },
                ));
                true
            },
            None => false,
        }
    }

    /// The folder of a project, empty where there is no such project.
    pub fn project_workspace(&self, id: &str) -> (r: String)
        ensures
            r@ == folder_of(self@, id@),
    {
        match project_at(&self.projects, id) {
            Some(i) => self.projects[i].workspace.clone(),
            None => String::new(),
        }
    }

    /// The folder of the open project.
    pub fn current_project_workspace(&self) -> (r: String)
        ensures
            r@ == folder_of(self@, self@.current_project),
    {
        self.project_workspace(self.current_project.as_str())
    }

    /// Makes a project in a folder and opens it.
    pub fn project_create(&mut self, name: &str, folder: Folder, now: u64) -> (r: ProjectMeta)
        ensures
            r@ == new_project(name@, folder, now),
            final(self)@ == with_project(old(self)@, r@),
    {
        let nm: String = if !is_blank(name) {
            trim(name)
        } else if folder.scratch {
            DEFAULT_PROJECT.to_string()
        } else {
            folder.name.clone()
        };
        let meta = ProjectMeta {
            id: numbered("p", now),
            name: nm,
            workspace: folder.path.clone(),
            created: now,
        };
        let ghost before = projects_view(self.projects@);
        let r = meta.clone();
        self.current_project = meta.id.clone();
        self.projects.push(meta);
        assert(projects_view(self.projects@) =~= before.push(meta@));
        r
    }

    /// Points a project at another folder, with its chats: they hold copies of the folder, and
    /// would go on working in the old one. Returns whether the project is there.
    pub fn project_set_workspace(&mut self, id: &str, folder: &str) -> (r: bool)
        ensures
            match find_project(old(self)@.projects, id@) {
                Some(i) => r && final(self)@ == moved(old(self)@, i, folder@),
                None => !r && final(self)@ == old(self)@,
            },
    {
        let ghost st = self@;
        proof {
            found_project(st.projects, id@);
        }
        match project_at(&self.projects, id) {
            Some(i) => {
                self.projects[i].workspace = folder.to_string();
                assert(projects_view(self.projects@) =~= st.projects.update(
                    i as int,
                    ProjectMetaV { workspace: folder@, ..st.projects[i as int] },
                ));
                let ghost goal = moved(st, i as int, folder@).sessions;
                let mut k: usize = 0;
                while k < self.sessions.len()
                    invariant
                        k <= self.sessions.len(),
                        self.sessions@.len() == st.sessions.len(),
                        st.projects[i as int].id == id@,
                        goal == moved(st, i as int, folder@).sessions,
                        projects_view(self.projects@) == moved(st, i as int, folder@).projects,
                        self.current@ == st.current,
                        self.current_project@ == st.current_project,
                        forall|j: int| 0 <= j < k ==> (#[trigger] self.sessions@[j])@ == goal[j],
                        forall|j: int|
                            k <= j < st.sessions.len() ==> (#[trigger] self.sessions@[j])@
                                == st.sessions[j],
                    decreases self.sessions.len() - k,
                {
                    assert(self.sessions@[k as int]@ == st.sessions[k as int]);
                    if same(self.sessions[k].project.as_str(), id) {
                        self.sessions[k].workspace = folder.to_string();
                    }
                    assert(self.sessions@[k as int]@ == goal[k as int]);
                    k += 1;
                }
                assert(sessions_view(self.sessions@) =~= goal);
                true
            },
            None => false,
        }
    }

    /// Renames a project. Returns whether there was a name and a project to rename.
    pub fn project_rename(&mut self, id: &str, name: &str) -> (r: bool)
        ensures
            match find_project(old(self)@.projects, id@) {
                Some(i) => if blank(name@) {
                    !r && final(self)@ == old(self)@
                } else {
                    r && final(self)@ == (StoreV {
                        projects: old(self)@.projects.update(
                            i,
                            ProjectMetaV { name: trim_of(name@), ..old(self)@.projects[i] },
                        ),
                        ..old(self)@
                    })
                },
                None => !r && final(self)@ == old(self)@,
            },
    {
        if is_blank(name) {
            return false;
        }
        match project_at(&self.projects, id) {
            Some(i) => {
                let ghost before = projects_view(self.projects@);
                self.projects[i].name = trim(name);
                assert(projects_view(self.projects@) =~= before.update(
                    i as int,
                    ProjectMetaV { name: trim_of(name@), ..before[i as int] },
                ));
                true
            },
            None => false,
        }
    }

    /// Deletes a project, unless it is the only one. Its chats are filed under the first
    /// project that is left and keep their own folders, so nothing is lost. Nothing on disk is
    /// touched: the folder is the user's.
    pub fn project_remove(&mut self, id: &str) -> (r: bool)
        ensures
            r == (old(self)@.projects.len() > 1),
            final(self)@ == if r {
                without_project(old(self)@, id@)
            } else {
                old(self)@
            },
    {
        if self.projects.len() <= 1 {
            return false;
        }
        let ghost st = self@;
        let ghost mut gone: int = 0;
        let mut i: usize = 0;
        assert(projects_view(self.projects@.take(0)) =~= projects_without(
            st.projects.take(0),
            id@,
        ));
        while i < self.projects.len()
            invariant
                i <= self.projects.len(),
                0 <= gone,
                self.projects@.len() + gone == st.projects.len(),
                projects_view(self.projects@.take(i as int)) == projects_without(
                    st.projects.take(i + gone),
                    id@,
                ),
                forall|k: int|
                    i <= k < self.projects@.len() ==> (#[trigger] self.projects@[k])@
                        == st.projects[k + gone],
                sessions_view(self.sessions@) == st.sessions,
                self.current@ == st.current,
                self.current_project@ == st.current_project,
            decreases self.projects.len() - i,
        {
            assert(st.projects.take(i + gone + 1).drop_last() =~= st.projects.take(i + gone));
            assert(st.projects.take(i + gone + 1).last() == self.projects@[i as int]@);
            let ghost before = self.projects@;
            if same(self.projects[i].id.as_str(), id) {
                let _ = self.projects.remove(i);
                assert(self.projects@.take(i as int) =~= before.take(i as int));
                proof {
                    gone = gone + 1;
                }
                assert forall|k: int| i <= k < self.projects@.len() implies (
                #[trigger] self.projects@[k])@ == st.projects[k + gone] by {
                    assert(self.projects@[k] == before[k + 1]);
                }
            } else {
                assert(projects_view(self.projects@.take(i + 1)) =~= projects_view(
                    self.projects@.take(i as int),
                ).push(self.projects@[i as int]@));
                i += 1;
            }
        }
        assert(st.projects.take(i + gone) =~= st.projects);
        assert(self.projects@.take(i as int) =~= self.projects@);
        let ghost left = projects_without(st.projects, id@);
        assert(left == projects_view(self.projects@));
        if self.projects.len() == 0 {
            return true;
        }
        let first = self.projects[0].id.clone();
        assert(left[0].id == first@);
        let ghost goal = without_project(st, id@).sessions;
        let mut k: usize = 0;
        while k < self.sessions.len()
            invariant
                k <= self.sessions.len(),
                self.sessions@.len() == st.sessions.len(),
                left.len() > 0,
                left == projects_without(st.projects, id@),
                projects_view(self.projects@) == left,
                first@ == left[0].id,
                goal == without_project(st, id@).sessions,
                self.current@ == st.current,
                self.current_project@ == st.current_project,
                forall|j: int| 0 <= j < k ==> (#[trigger] self.sessions@[j])@ == goal[j],
                forall|j: int|
                    k <= j < st.sessions.len() ==> (#[trigger] self.sessions@[j])@
                        == st.sessions[j],
            decreases self.sessions.len() - k,
        {
            assert(self.sessions@[k as int]@ == st.sessions[k as int]);
            if same(self.sessions[k].project.as_str(), id) {
                self.sessions[k].project = first.clone();
            }
            assert(self.sessions@[k as int]@ == goal[k as int]);
            k += 1;
        }
        assert(sessions_view(self.sessions@) =~= goal);
        if same(self.current_project.as_str(), id) {
            self.current_project = first;
        }
        true
    }

    /// Opens a project. Returns whether it is there.
    pub fn project_switch(&mut self, id: &str) -> (r: bool)
        ensures
            r == find_project(old(self)@.projects, id@) is Some,
            final(self)@ == if r {
                StoreV { current_project: id@, ..old(self)@ }
            } else {
                old(self)@
            },
    {
        match project_at(&self.projects, id) {
            Some(_) => {
                self.current_project = id.to_string();
                true
            },
            None => false,
        }
    }

    /// Makes a chat in the open project and opens it. It copies the project's folder at once,
    /// where it is not given one of its own, so that it stays there. What comes back with it, an
    /// empty history, is to be stored.
    pub fn create(
        &mut self,
        name: &str,
        folder: Option<String>,
        model: &str,
        provider: &str,
        place: &Place,
        now: u64,
    ) -> (r: (SessionMeta, Record))
        requires
            old(self).sessions@.len() < usize::MAX,
        ensures
            r.0@ == new_chat(
                old(self)@,
                name@,
                opt_text(folder),
                model@,
                provider@,
                place.scratch@,
                now,
            ),
            final(self)@ == with_chat(old(self)@, r.0@),
            r.1@ == (RecordV { id: r.0@.id, messages: Seq::empty() }),
    {
        let ghost st = self@;
        let workspace: String = match folder {
            Some(f) => f,
            None => {
                let p = self.current_project_workspace();
                if is_blank(p.as_str()) {
                    place.scratch.clone()
                } else {
                    p
                }
            },
        };
        let mut n: usize = 0;
        let mut i: usize = 0;
        while i < self.sessions.len()
            invariant
                i <= self.sessions.len(),
                n <= i,
                st == self@,
                *self == *old(self),
                n == chats_in(st.sessions.take(i as int), st.current_project),
            decreases self.sessions.len() - i,
        {
            assert(st.sessions.take(i + 1).drop_last() =~= st.sessions.take(i as int));
            assert(st.sessions[i as int] == self.sessions@[i as int]@);
            if same(self.sessions[i].project.as_str(), self.current_project.as_str()) {
                n += 1;
            }
            i += 1;
        }
        assert(st.sessions.take(st.sessions.len() as int) =~= st.sessions);
        let count: usize = n + 1;
        let chat_name: String = if !is_blank(name) {
            trim(name)
        } else if count == 1 {
            "New task".to_string()
        } else {
            numbered("New task ", count as u64)
        };
        let meta = SessionMeta {
            id: numbered("s", now),
            name: chat_name,
            created: now,
            workspace,
            project: self.current_project.clone(),
            model: trim(model),
            provider: trim(provider),
            state: String::new(),
            managed_worktree: false,
            worktree_base: String::new(),
            worktree_branch: String::new(),
        };
        let r = meta.clone();
        self.current = meta.id.clone();
        self.sessions.push(meta);
        assert(sessions_view(self.sessions@) =~= st.sessions.push(meta@));
        let messages: Vec<Msg> = Vec::new();
        assert(msgs(messages@) =~= Seq::empty());
        let w = Record { id: r.id.clone(), messages };
        (r, w)
    }

    /// The chats of a project.
    pub fn sessions_in(&self, project: &str) -> (r: Vec<SessionMeta>)
        ensures
            sessions_view(r@) == chats_of(self@.sessions, project@),
    {
        let ghost st = self@;
        let mut out: Vec<SessionMeta> = Vec::new();
        let mut i: usize = 0;
        assert(sessions_view(out@) =~= chats_of(st.sessions.take(0), project@));
        while i < self.sessions.len()
            invariant
                i <= self.sessions.len(),
                st == self@,
                sessions_view(out@) == chats_of(st.sessions.take(i as int), project@),
            decreases self.sessions.len() - i,
        {
            assert(st.sessions.take(i + 1).drop_last() =~= st.sessions.take(i as int));
            assert(st.sessions[i as int] == self.sessions@[i as int]@);
            if same(self.sessions[i].project.as_str(), project) {
                let ghost before = sessions_view(out@);
                out.push(self.sessions[i].clone());
                assert(sessions_view(out@) =~= before.push(st.sessions[i as int]));
            }
            i += 1;
        }
        assert(st.sessions.take(st.sessions.len() as int) =~= st.sessions);
        out
    }

    /// Renames a chat. Returns whether there was a name and a chat to rename.
    pub fn rename_session(&mut self, id: &str, name: &str) -> (r: bool)
        ensures
            match find_session(old(self)@.sessions, id@) {
                Some(i) => if blank(name@) {
                    !r && final(self)@ == old(self)@
                } else {
                    r && final(self)@ == (StoreV {
                        sessions: old(self)@.sessions.update(
                            i,
                            SessionV { name: trim_of(name@), ..old(self)@.sessions[i] },
                        ),
                        ..old(self)@
                    })
                },
                None => !r && final(self)@ == old(self)@,
            },
    {
        if is_blank(name) {
            return false;
        }
        match session_at(&self.sessions, id) {
            Some(i) => {
                let ghost before = sessions_view(self.sessions@);
                self.sessions[i].name = trim(name);
                assert(sessions_view(self.sessions@) =~= before.update(
                    i as int,
                    SessionV { name: trim_of(name@), ..before[i as int] },
                ));
                true
            },
            None => false,
        }
    }

    /// Opens a chat. Returns whether it is there.
    pub fn switch(&mut self, id: &str) -> (r: bool)
        ensures
            r == find_session(old(self)@.sessions, id@) is Some,
            final(self)@ == if r {
                StoreV { current: id@, ..old(self)@ }
            } else {
                old(self)@
            },
    {
        match session_at(&self.sessions, id) {
            Some(_) => {
                self.current = id.to_string();
                true
            },
            None => false,
        }
    }

    /// Deletes a chat. Its history has to be deleted with it.
    pub fn remove(&mut self, id: &str)
        ensures
            final(self)@ == without_chat(old(self)@, id@),
    {
        let ghost st = self@;
        let ghost mut gone: int = 0;
        let mut i: usize = 0;
        assert(sessions_view(self.sessions@.take(0)) =~= sessions_without(
            st.sessions.take(0),
            id@,
        ));
        while i < self.sessions.len()
            invariant
                i <= self.sessions.len(),
                0 <= gone,
                self.sessions@.len() + gone == st.sessions.len(),
                sessions_view(self.sessions@.take(i as int)) == sessions_without(
                    st.sessions.take(i + gone),
                    id@,
                ),
                forall|k: int|
                    i <= k < self.sessions@.len() ==> (#[trigger] self.sessions@[k])@
                        == st.sessions[k + gone],
                projects_view(self.projects@) == st.projects,
                self.current@ == st.current,
                self.current_project@ == st.current_project,
            decreases self.sessions.len() - i,
        {
            assert(st.sessions.take(i + gone + 1).drop_last() =~= st.sessions.take(i + gone));
            assert(st.sessions.take(i + gone + 1).last() == self.sessions@[i as int]@);
            let ghost before = self.sessions@;
            if same(self.sessions[i].id.as_str(), id) {
                let _ = self.sessions.remove(i);
                assert(self.sessions@.take(i as int) =~= before.take(i as int));
                proof {
                    gone = gone + 1;
                }
                assert forall|k: int| i <= k < self.sessions@.len() implies (
                #[trigger] self.sessions@[k])@ == st.sessions[k + gone] by {
                    assert(self.sessions@[k] == before[k + 1]);
                }
            } else {
                assert(sessions_view(self.sessions@.take(i + 1)) =~= sessions_view(
                    self.sessions@.take(i as int),
                ).push(self.sessions@[i as int]@));
                i += 1;
            }
        }
        assert(st.sessions.take(i + gone) =~= st.sessions);
        assert(self.sessions@.take(i as int) =~= self.sessions@);
        let ghost left = sessions_without(st.sessions, id@);
        assert(left == sessions_view(self.sessions@));
        if same(self.current.as_str(), id) {
            if self.sessions.len() > 0 {
                self.current = self.sessions[0].id.clone();
            } else {
                self.current = String::new();
                assert(self.current@ =~= Seq::empty());
            }
        }
    }

    /// Copies a chat and opens the copy. `history` is that of the chat; what comes back with the
    /// copy is to be stored.
    pub fn fork(&mut self, id: &str, name: &str, history: Vec<Msg>, now: u64) -> (r: Option<
        (SessionMeta, Record),
    >)
        ensures
            match find_session(old(self)@.sessions, id@) {
                Some(i) => r matches Some((m, w)) && {
                    &&& m@ == forked(old(self)@.sessions[i], name@, now)
                    &&& final(self)@ == with_chat(old(self)@, m@)
                    &&& w@ == (RecordV { id: m@.id, messages: msgs(history@) })
                },
                None => r is None && final(self)@ == old(self)@,
            },
    {
        match session_at(&self.sessions, id) {
            Some(i) => {
                let ghost st = self@;
                let src = self.sessions[i].clone();
                let chat_name: String = if is_blank(name) {
                    let mut s = src.name.clone();
                    s.append(" (fork)");
                    s
                } else {
                    trim(name)
                };
                let meta = SessionMeta {
                    id: numbered("s", now),
                    name: chat_name,
                    created: now,
                    workspace: src.workspace,
                    project: src.project,
                    model: src.model,
                    provider: src.provider,
                    state: src.state,
                    managed_worktree: false,
                    worktree_base: String::new(),
                    worktree_branch: String::new(),
                };
                let r = meta.clone();
                self.current = meta.id.clone();
                self.sessions.push(meta);
                assert(sessions_view(self.sessions@) =~= st.sessions.push(meta@));
                let w = Record { id: r.id.clone(), messages: history };
                Some((r, w))
            },
            None => None,
        }
    }

    /// Brings an index that an older build wrote up to date: every project owns a folder, and
    /// every chat knows which project it is under and which folder it runs in. `pins` holds, for
    /// each project, its folder made absolute where that is a folder that exists: another would
    /// only be frozen where it is broken. Returns whether anything was out of date.
    pub fn migrate(&mut self, place: &Place, pins: &Vec<Option<String>>) -> (r: bool)
        requires
            pins@.len() == old(self).projects@.len(),
        ensures
            final(self)@ == migrated(old(self)@, place.scratch@, pins_view(pins@)),
            r == unsettled(old(self)@, place.scratch@, pins_view(pins@)),
    {
        let ghost st = self@;
        let ghost scratch = place.scratch@;
        let ghost pv = pins_view(pins@);
        let ghost goal = migrated(st, scratch, pv);
        let first: String = if self.projects.len() > 0 {
            self.projects[0].id.clone()
        } else {
            String::new()
        };
        assert(first@ =~= default_id(st)) by {
            if st.projects.len() > 0 {
                assert(st.projects[0] == self.projects@[0]@);
            }
        }
        let mut changed: bool = false;
        let mut i: usize = 0;
        while i < self.projects.len()
            invariant
                i <= self.projects.len(),
                self.projects@.len() == st.projects.len(),
                pins@.len() == st.projects.len(),
                pv == pins_view(pins@),
                scratch == place.scratch@,
                first@ == default_id(st),
                goal == migrated(st, scratch, pv),
                sessions_view(self.sessions@) == st.sessions,
                self.current@ == st.current,
                self.current_project@ == st.current_project,
                forall|j: int| 0 <= j < i ==> (#[trigger] self.projects@[j])@ == goal.projects[j],
                forall|j: int|
                    i <= j < st.projects.len() ==> (#[trigger] self.projects@[j])@
                        == st.projects[j],
                changed == (exists|j: int|
                    0 <= j < i && unsettled_project(#[trigger] st.projects[j], pv[j])),
            decreases self.projects.len() - i,
        {
            assert(self.projects@[i as int]@ == st.projects[i as int]);
            assert(pv[i as int] == opt_text(pins@[i as int]));
            if is_blank(self.projects[i].workspace.as_str()) {
                let nm = trim(self.projects[i].name.as_str());
                let renamed: bool = same(self.projects[i].id.as_str(), first.as_str()) || same(
                    nm.as_str(),
                    "Default",
                ) || same(nm.as_str(), "Chats");
                self.projects[i].workspace = place.scratch.clone();
                if renamed {
                    self.projects[i].name = DEFAULT_PROJECT.to_string();
                }
                assert(unsettled_project(st.projects[i as int], pv[i as int]));
                changed = true;
            } else {
                match &pins[i] {
                    Some(abs) => {
                        if !same(abs.as_str(), self.projects[i].workspace.as_str()) {
                            self.projects[i].workspace = abs.clone();
                            assert(unsettled_project(st.projects[i as int], pv[i as int]));
                            changed = true;
                        }
                    },
                    None => {},
                }
            }
            assert(self.projects@[i as int]@ == goal.projects[i as int]);
            i += 1;
        }
        assert(projects_view(self.projects@) =~= goal.projects);
        let ghost projects_changed = changed;
        let mut k: usize = 0;
        while k < self.sessions.len()
            invariant
                k <= self.sessions.len(),
                self.sessions@.len() == st.sessions.len(),
                scratch == place.scratch@,
                first@ == default_id(st),
                goal == migrated(st, scratch, pv),
                projects_view(self.projects@) == goal.projects,
                self.current@ == st.current,
                self.current_project@ == st.current_project,
                forall|j: int| 0 <= j < k ==> (#[trigger] self.sessions@[j])@ == goal.sessions[j],
                forall|j: int|
                    k <= j < st.sessions.len() ==> (#[trigger] self.sessions@[j])@
                        == st.sessions[j],
                changed == (projects_changed || exists|j: int|
                    0 <= j < k && unsettled_session(
                        #[trigger] st.sessions[j],
                        first@,
                        goal.projects,
                    )),
            decreases self.sessions.len() - k,
        {
            assert(self.sessions@[k as int]@ == st.sessions[k as int]);
            let ghost s = st.sessions[k as int];
            let adopt: bool = is_blank(self.sessions[k].project.as_str())
                && first.as_str().unicode_len() > 0;
            if adopt {
                self.sessions[k].project = first.clone();
            }
            let ws: String = match project_at(&self.projects, self.sessions[k].project.as_str()) {
                Some(q) => {
                    assert(goal.projects[q as int] == self.projects@[q as int]@);
                    self.projects[q].workspace.clone()
                },
                None => String::new(),
            };
            let fill: bool = is_blank(self.sessions[k].workspace.as_str())
                && ws.as_str().unicode_len() > 0;
            if fill {
                self.sessions[k].workspace = ws;
            }
            assert(self.sessions@[k as int]@ == settled_session(s, first@, goal.projects));
            assert(self.sessions@[k as int]@ == goal.sessions[k as int]);
            assert((adopt || fill) == unsettled_session(s, first@, goal.projects));
            if adopt || fill {
                assert(unsettled_session(st.sessions[k as int], first@, goal.projects));
                changed = true;
            }
            k += 1;
        }
        assert(sessions_view(self.sessions@) =~= goal.sessions);
        changed
    }
}

// ---- histories -----------------------------------------------------------------------------------------

/// A history that is to be stored.
#[derive(Debug)]
pub struct Record {
    /// The chat.
    pub id: String,
    pub messages: Vec<Msg>,
}

pub struct RecordV {
    pub id: Seq<char>,
    pub messages: Seq<MsgV>,
}

impl View for Record {
    type V = RecordV;

    open spec fn view(&self) -> RecordV {
        RecordV { id: self.id@, messages: msgs(self.messages@) }
    }
}

pub open spec fn opt_record(o: Option<Record>) -> Option<RecordV> {
    match o {
        Some(w) => Some(w@),
        None => None,
    }
}

pub open spec fn opt_msgs(o: Option<Vec<Msg>>) -> Option<Seq<MsgV>> {
    match o {
        Some(v) => Some(msgs(v@)),
        None => None,
    }
}

/// The history of a chat, from what is stored: repaired, and empty where nothing is or the chat
/// has no id.
pub open spec fn history_of(id: Seq<char>, stored: Option<Seq<MsgV>>) -> Seq<MsgV> {
    if id.len() == 0 {
        Seq::empty()
    } else {
        repaired(
            match stored {
                Some(h) => h,
                None => Seq::empty(),
            },
        )
    }
}

/// What is stored when the history of a chat has been read: the repaired one, where there was
/// something to repair, so that it is repaired once.
pub open spec fn stored_back(id: Seq<char>, stored: Option<Seq<MsgV>>) -> Option<RecordV> {
    match stored {
        Some(h) => if id.len() > 0 && repairs(h) > 0 {
            Some(RecordV { id, messages: repaired(h) })
        } else {
            None
        },
        None => None,
    }
}

/// What is stored when the history of a chat is set.
pub open spec fn record_of(id: Seq<char>, h: Seq<MsgV>) -> Option<RecordV> {
    if id.len() == 0 {
        None
    } else {
        Some(RecordV { id, messages: h })
    }
}

impl SessionStore {
    /// The history of a chat, from what is stored, and what is to be stored in its place: a run that
    /// broke off may have left it in a state that providers refuse.
    pub fn get_history(&self, id: &str, stored: Option<Vec<Msg>>) -> (r: (
        Vec<Msg>,
        Option<Record>,
    ))
        ensures
            msgs(r.0@) == history_of(id@, opt_msgs(stored)),
            opt_record(r.1) == stored_back(id@, opt_msgs(stored)),
    {
        proof {
            nothing_to_repair();
        }
        if id.unicode_len() == 0 {
            let none: Vec<Msg> = Vec::new();
            assert(msgs(none@) =~= Seq::empty());
            return (none, None);
        }
        match stored {
            Some(h) => {
                let mut history = h;
                let fixed: usize = repair_tool_calls(&mut history);
                if fixed > 0 {
                    let copy = copy_msgs(&history, 0, history.len());
                    assert(msgs(history@).subrange(0, history@.len() as int) =~= msgs(history@));
                    (history, Some(Record { id: id.to_string(), messages: copy }))
                } else {
                    (history, None)
                }
            },
            None => {
                let none: Vec<Msg> = Vec::new();
                assert(msgs(none@) =~= Seq::empty());
                (none, None)
            },
        }
    }

    /// What is to be stored when the history of a chat is set: nothing where the chat has no id.
    pub fn set_history(&self, id: &str, history: Vec<Msg>) -> (r: Option<Record>)
        ensures
            opt_record(r) == record_of(id@, msgs(history@)),
    {
        if id.unicode_len() == 0 {
            None
        } else {
            Some(Record { id: id.to_string(), messages: history })
        }
    }
}

/// What a disk holds once something has been stored on it.
pub open spec fn with_record(disk: Map<Seq<char>, Seq<MsgV>>, w: Option<RecordV>) -> Map<
    Seq<char>,
    Seq<MsgV>,
> {
    match w {
        Some(w) => disk.insert(w.id, w.messages),
        None => disk,
    }
}

pub open spec fn on_disk(disk: Map<Seq<char>, Seq<MsgV>>, id: Seq<char>) -> Option<Seq<MsgV>> {
    if disk.dom().contains(id) {
        Some(disk[id])
    } else {
        None
    }
}

/// The history of a chat, read from a disk.
pub open spec fn read_from(disk: Map<Seq<char>, Seq<MsgV>>, id: Seq<char>) -> Seq<MsgV> {
    history_of(id, on_disk(disk, id))
}

proof fn nothing_to_repair()
    ensures
        repaired(Seq::empty()) == Seq::<MsgV>::empty(),
        repairs(Seq::empty()) == 0,
{
    let h = Seq::<MsgV>::empty();
    assert(healthy(h)) by {
        assert(called(h).len() == 0 && answered(h).len() == 0);
    }
    healthy_history_is_unchanged(h);
}

/// What was stored is read back: a history that providers accept as it is, any other repaired. The
/// histories of other chats are as they were.
pub proof fn what_is_stored_is_read_back(
    disk: Map<Seq<char>, Seq<MsgV>>,
    id: Seq<char>,
    h: Seq<MsgV>,
    other: Seq<char>,
)
    requires
        id.len() > 0,
    ensures
        ({
            let after = with_record(disk, record_of(id, h));
            &&& read_from(after, id) == repaired(h)
            &&& healthy(h) ==> read_from(after, id) == h
            &&& other != id ==> read_from(after, other) == read_from(disk, other)
        }),
{
    if healthy(h) {
        healthy_history_is_unchanged(h);
    }
}

/// A new chat begins with an empty transcript, even where an earlier one left something under its
/// id. The histories of other chats are as they were.
pub proof fn a_new_chat_is_empty(
    st: StoreV,
    disk: Map<Seq<char>, Seq<MsgV>>,
    name: Seq<char>,
    folder: Option<Seq<char>>,
    model: Seq<char>,
    provider: Seq<char>,
    scratch: Seq<char>,
    now: u64,
    other: Seq<char>,
)
    ensures
        ({
            let m = new_chat(st, name, folder, model, provider, scratch, now);
            let after = with_record(disk, Some(RecordV { id: m.id, messages: Seq::empty() }));
            &&& read_from(after, m.id) == Seq::<MsgV>::empty()
            &&& other != m.id ==> read_from(after, other) == read_from(disk, other)
        }),
{
    nothing_to_repair();
}

/// Reading a history changes no history: what is stored back reads the same.
pub proof fn reading_changes_nothing(
    disk: Map<Seq<char>, Seq<MsgV>>,
    id: Seq<char>,
    other: Seq<char>,
)
    requires
        on_disk(disk, id) matches Some(h) ==> tools_only_answer(h),
    ensures
        read_from(with_record(disk, stored_back(id, on_disk(disk, id))), other) == read_from(
            disk,
            other,
        ),
{
    match on_disk(disk, id) {
        Some(h) => {
            repair_is_idempotent(h);
        },
        None => {},
    }
}

/// A fork has its source's transcript, and everything else of it but the id, the time, the name and
/// the worktree. It stands behind the other chats and is the open one. Its source, and every other
/// chat, is as it was.
pub proof fn a_fork_has_its_sources_transcript(
    st: StoreV,
    disk: Map<Seq<char>, Seq<MsgV>>,
    id: Seq<char>,
    name: Seq<char>,
    now: u64,
    other: Seq<char>,
)
    requires
        find_session(st.sessions, id) is Some,
        find_session(st.sessions, "s"@ + decimal_of(now as nat)) is None,
        on_disk(disk, id) matches Some(h) ==> tools_only_answer(h),
    ensures
        ({
            let src = st.sessions[find_session(st.sessions, id)->0];
            let m = forked(src, name, now);
            let read = with_record(disk, stored_back(id, on_disk(disk, id)));
            let after = with_record(
                read,
                Some(RecordV { id: m.id, messages: read_from(disk, id) }),
            );
            let next = with_chat(st, m);
            &&& read_from(after, m.id) == read_from(disk, id)
            &&& read_from(after, id) == read_from(disk, id)
            &&& other != m.id ==> read_from(after, other) == read_from(disk, other)
            &&& m.workspace == src.workspace
            &&& m.project == src.project
            &&& m.model == src.model
            &&& m.provider == src.provider
            &&& m.state == src.state
            &&& m.name == if blank(name) {
                src.name + " (fork)"@
            } else {
                trim_of(name)
            }
            &&& next.sessions == st.sessions.push(m)
            &&& next.current == m.id
            &&& find_session(next.sessions, m.id) == Some(st.sessions.len() as int)
            &&& find_session(next.sessions, id) == find_session(st.sessions, id)
        }),
{
    let src = st.sessions[find_session(st.sessions, id)->0];
    let m = forked(src, name, now);
    let next = with_chat(st, m);
    reveal_strlit("s");
    assert(m.id.len() > 0);
    assert(next.sessions.drop_last() =~= st.sessions);
    reading_changes_nothing(disk, id, other);
    reading_changes_nothing(disk, id, id);
    nothing_to_repair();
    match on_disk(disk, id) {
        Some(h) => {
            repair_is_idempotent(h);
        },
        None => {},
    }
}

// ---- the index -------------------------------------------------------------------------------------------

/// What a stored index holds, before its entries have been read.
#[derive(Debug)]
pub struct Index {
    pub current: String,
    pub current_project: String,
    pub sessions: Vec<Json>,
    pub projects: Vec<Json>,
}

pub struct IndexV {
    pub current: Seq<char>,
    pub current_project: Seq<char>,
    pub sessions: Seq<JsonV>,
    pub projects: Seq<JsonV>,
}

impl View for Index {
    type V = IndexV;

    open spec fn view(&self) -> IndexV {
        IndexV {
            current: self.current@,
            current_project: self.current_project@,
            sessions: jsons(self.sessions@),
            projects: jsons(self.projects@),
        }
    }
}

pub open spec fn text_in(v: JsonV, key: Seq<char>) -> Seq<char> {
    match v.text_field(key) {
        Some(s) => s,
        None => Seq::empty(),
    }
}

pub open spec fn items_in(v: JsonV, key: Seq<char>) -> Seq<JsonV> {
    match v.field(key) {
        Some(JsonV::Array(a)) => a,
        _ => Seq::empty(),
    }
}

/// What an index holds: nothing where its text is no JSON.
pub open spec fn index_in(v: Option<JsonV>) -> IndexV {
    let v = match v {
        Some(j) => j,
        None => JsonV::Null,
    };
    IndexV {
        current: text_in(v, "current"@),
        current_project: text_in(v, "current_project"@),
        sessions: items_in(v, "sessions"@),
        projects: items_in(v, "projects"@),
    }
}

fn read_text(v: &Json, key: &str) -> (r: String)
    ensures
        r@ == text_in(v@, key@),
{
    match v.get_str(key) {
        Some(s) => s,
        None => String::new(),
    }
}

fn read_items(v: &Json, key: &str) -> (r: Vec<Json>)
    ensures
        jsons(r@) == items_in(v@, key@),
{
    let none: Vec<Json> = Vec::new();
    assert(jsons(none@) =~= Seq::empty());
    match v.get(key) {
        Some(j) => match j.as_array() {
            Some(a) => copy_jsons(a),
            None => none,
        },
        None => none,
    }
}

/// Reads the text of an index. What it says of each project and each chat is still to be read.
pub fn read_index(text: &str) -> (r: Index)
    ensures
        r@ == index_in(json_parse(text@)),
{
    let v: Json = match parse(text) {
        Some(j) => j,
        None => Json::Null,
    };
    Index {
        current: read_text(&v, "current"),
        current_project: read_text(&v, "current_project"),
        sessions: read_items(&v, "sessions"),
        projects: read_items(&v, "projects"),
    }
}

// ---- opening the store ---------------------------------------------------------------------------

/// The store of an index that was read: with a project, migrated, and with a chat.
pub open spec fn opened(
    read: StoreV,
    folder: Folder,
    pins: Seq<Option<Seq<char>>>,
    scratch: Seq<char>,
    now: u64,
) -> StoreV {
    let bare = read.projects.len() == 0;
    let st1 = if bare {
        with_project(read, new_project(DEFAULT_PROJECT@, folder, now))
    } else {
        read
    };
    let pins1 = if bare {
        seq![None]
    } else {
        pins
    };
    let st2 = migrated(st1, scratch, pins1);
    if st2.sessions.len() == 0 {
        with_chat(
            st2,
            new_chat(st2, "Chat 1"@, None, Seq::empty(), Seq::empty(), scratch, now),
        )
    } else {
        st2
    }
}

impl SessionStore {
    /// The store of an index that was read. `folder` is the one for one-off work, and `pins`
    /// holds, for each project, its folder made absolute where that is a folder that exists. Where
    /// there was no chat, the history of the first comes back with it and is to be stored.
    pub fn new(
        read: SessionStore,
        folder: Folder,
        pins: &Vec<Option<String>>,
        place: &Place,
        now: u64,
    ) -> (r: (SessionStore, Option<Record>))
        requires
            pins@.len() == read.projects@.len(),
        ensures
            r.0@ == opened(read@, folder, pins_view(pins@), place.scratch@, now),
            opt_record(r.1) == if read@.sessions.len() == 0 {
                Some(
                    RecordV { id: "s"@ + decimal_of(now as nat), messages: Seq::empty() },
                )
            } else {
                None
            },
    {
        let ghost st = read@;
        let mut r = read;
        if r.projects.len() == 0 {
            let _ = r.project_create(DEFAULT_PROJECT, folder, now);
            let mut none: Vec<Option<String>> = Vec::new();
            none.push(None);
            assert(pins_view(none@) =~= seq![None::<Seq<char>>]);
            assert(r.projects@.len() == r@.projects.len());
            let _ = r.migrate(place, &none);
        } else {
            let _ = r.migrate(place, pins);
        }
        assert(r.sessions@.len() == r@.sessions.len());
        let mut first: Option<Record> = None;
        if r.sessions.len() == 0 {
            let (_, record) = r.create("Chat 1", None, "", "", place, now);
            first = Some(record);
            proof {
                reveal_strlit("");
                assert(""@ =~= Seq::<char>::empty());
            }
        }
        (r, first)
    }

    /// A history cut down without a model: the system messages and the most recent ones. Returns
    /// how many messages there are then, and the new history where it differs. A history that
    /// is short, or that cannot be split, is left alone.
    pub fn compact(&self, history: &Vec<Msg>) -> (r: (usize, Option<Vec<Msg>>))
        ensures
            match r.1 {
                Some(out) => {
                    &&& shortenable(msgs(history@))
                    &&& msgs(out@) == cut_down(msgs(history@))
                    &&& r.0 == out@.len()
                },
                None => !shortenable(msgs(history@)) && r.0 == history@.len(),
            },
    {
        let ghost h = msgs(history@);
        let mut spoken: usize = 0;
        let mut system: Vec<Msg> = Vec::new();
        let mut i: usize = 0;
        assert(msgs(system@) =~= system_messages(h.take(0)));
        while i < history.len()
            invariant
                i <= history.len(),
                spoken <= i,
                h == msgs(history@),
                spoken == crate::engine::speaking(h.take(i as int)).len(),
                msgs(system@) == system_messages(h.take(i as int)),
            decreases history.len() - i,
        {
            assert(h.take(i + 1).drop_last() =~= h.take(i as int));
            assert(h[i as int] == history@[i as int]@);
            if same(history[i].role.as_str(), "system") {
                let ghost before = msgs(system@);
                system.push(history[i].clone());
                assert(msgs(system@) =~= before.push(h[i as int]));
            } else {
                spoken += 1;
            }
            i += 1;
        }
        assert(h.take(h.len() as int) =~= h);
        if spoken <= KEEP_RECENT + MIN_COMPACT_GAIN {
            return (history.len(), None);
        }
        match checked_keep_split(history.as_slice(), default_context_window()) {
            Some(split) => {
                if split == 0 {
                    return (history.len(), None);
                }
                proof {
                    crate::engine::split_never_strands_a_tool_result(h, 1_000_000);
                }
                let mut kept = copy_msgs(history, split, history.len());
                let ghost a = msgs(system@);
                let ghost b = msgs(kept@);
                let mut out = system;
                out.append(&mut kept);
                assert(b =~= h.skip(split as int));
                assert(msgs(out@) =~= a + b);
                (out.len(), Some(out))
            },
            None => (history.len(), None),
        }
    }
}

/// The system messages of a history.
pub open spec fn system_messages(h: Seq<MsgV>) -> Seq<MsgV>
    decreases h.len(),
{
    if h.len() == 0 {
        Seq::empty()
    } else if h.last().role == "system"@ {
        system_messages(h.drop_last()).push(h.last())
    } else {
        system_messages(h.drop_last())
    }
}

/// Whether it is worth cutting a history down, and there is something to cut.
pub open spec fn shortenable(h: Seq<MsgV>) -> bool {
    &&& crate::engine::speaking(h).len() > KEEP_RECENT + MIN_COMPACT_GAIN
    &&& splittable(h)
    &&& split_point(h, 1_000_000) > 0
}

/// The system messages, and what is kept of the rest.
pub open spec fn cut_down(h: Seq<MsgV>) -> Seq<MsgV> {
    system_messages(h) + h.skip(split_point(h, 1_000_000))
}

// ---- lists for a front end ------------------------------------------------------------------------

pub open spec fn project_entry(p: ProjectMetaV, scratch: bool) -> JsonV {
    obj().with_text("id"@, p.id).with_text("name"@, p.name).with_text(
        "workspace"@,
        p.workspace,
    ).with("created"@, JsonV::Unsigned(p.created)).with("scratch"@, JsonV::Bool(scratch))
}

pub open spec fn session_entry(s: SessionV, detached: bool) -> JsonV {
    obj().with_text("id"@, s.id).with_text("name"@, s.name).with(
        "created"@,
        JsonV::Unsigned(s.created),
    ).with_text("workspace"@, s.workspace).with_text("project"@, s.project).with_text(
        "model"@,
        s.model,
    ).with_text("state"@, s.state).with("detached"@, JsonV::Bool(detached))
}

/// Whether `j` is a chat for a front end, told whether it is detached.
pub open spec fn shows_chat(st: StoreV, s: SessionV, scratch: Seq<char>, j: JsonV) -> bool {
    ||| j == session_entry(s, false) && may_be_detached(st, s.id, scratch, false)
    ||| j == session_entry(s, true) && may_be_detached(st, s.id, scratch, true)
}

/// Whether `j` is a project for a front end, told whether it is the one for one-off work.
pub open spec fn shows_project(p: ProjectMetaV, scratch: Seq<char>, j: JsonV) -> bool {
    let ws = trim_of(p.workspace);
    ||| j == project_entry(p, true) && !blank(p.workspace) && may_be_same(ws, scratch, true)
    ||| j == project_entry(p, false) && (blank(p.workspace) || may_be_same(ws, scratch, false))
}

/// A project for a front end, told whether it is the one for one-off work.
pub fn project_item(p: &ProjectMeta, scratch: bool) -> (r: Json)
    ensures
        r@ == project_entry(p@, scratch),
{
    object().with_text("id", p.id.as_str()).with_text("name", p.name.as_str()).with_text(
        "workspace",
        p.workspace.as_str(),
    ).with("created", Json::Unsigned(p.created)).with("scratch", Json::Bool(scratch))
}

/// A chat for a front end, told whether it is detached.
pub fn session_item(s: &SessionMeta, detached: bool) -> (r: Json)
    ensures
        r@ == session_entry(s@, detached),
{
    object().with_text("id", s.id.as_str()).with_text("name", s.name.as_str()).with(
        "created",
        Json::Unsigned(s.created),
    ).with_text("workspace", s.workspace.as_str()).with_text(
        "project",
        s.project.as_str(),
    ).with_text("model", s.model.as_str()).with_text("state", s.state.as_str()).with(
        "detached",
        Json::Bool(detached),
    )
}

impl SessionStore {
    /// The projects for a front end. Whether one is for one-off work is found out each time, so
    /// that it always agrees with the folder.
    pub fn project_list_json(&self, place: &Place) -> (r: Vec<Json>)
        ensures
            r@.len() == self@.projects.len(),
            forall|i: int|
                0 <= i < r@.len() ==> shows_project(
                    self@.projects[i],
                    place.scratch@,
                    (#[trigger] r@[i])@,
                ),
    {
        let mut out: Vec<Json> = Vec::new();
        let mut i: usize = 0;
        while i < self.projects.len()
            invariant
                i <= self.projects.len(),
                out@.len() == i,
                forall|k: int|
                    0 <= k < i ==> shows_project(
                        self@.projects[k],
                        place.scratch@,
                        (#[trigger] out@[k])@,
                    ),
            decreases self.projects.len() - i,
        {
            let scratch: bool = is_scratch(self.projects[i].workspace.as_str(), place);
            out.push(project_item(&self.projects[i], scratch));
            i += 1;
        }
        out
    }

    /// The chats for a front end. Whether one is detached is taken from what the agent is told,
    /// so that the two never disagree.
    pub fn session_list_json(&self, place: &Place) -> (r: Vec<Json>)
        ensures
            r@.len() == self@.sessions.len(),
            forall|i: int|
                0 <= i < r@.len() ==> shows_chat(
                    self@,
                    self@.sessions[i],
                    place.scratch@,
                    (#[trigger] r@[i])@,
                ),
    {
        let mut out: Vec<Json> = Vec::new();
        let mut i: usize = 0;
        while i < self.sessions.len()
            invariant
                i <= self.sessions.len(),
                out@.len() == i,
                forall|k: int|
                    0 <= k < i ==> shows_chat(
                        self@,
                        self@.sessions[k],
                        place.scratch@,
                        (#[trigger] out@[k])@,
                    ),
            decreases self.sessions.len() - i,
        {
            let ctx = self.project_context(self.sessions[i].id.as_str(), place);
            out.push(session_item(&self.sessions[i], ctx.detached));
            i += 1;
        }
        out
    }
}

// ---- what holds of every store ---------------------------------------------------------------------

/// An opened store has a project and a chat.
pub proof fn an_opened_store_is_never_empty(
    read: StoreV,
    folder: Folder,
    pins: Seq<Option<Seq<char>>>,
    scratch: Seq<char>,
    now: u64,
)
    ensures
        opened(read, folder, pins, scratch, now).projects.len() > 0,
        opened(read, folder, pins, scratch, now).sessions.len() > 0,
{
}

/// After a migration every project owns a folder, every chat is under a project, and every chat
/// whose project is there has a folder.
pub proof fn migration_leaves_nothing_blank(
    st: StoreV,
    scratch: Seq<char>,
    pins: Seq<Option<Seq<char>>>,
)
    requires
        pins.len() == st.projects.len(),
        !blank(scratch),
        !blank(default_id(st)),
        forall|i: int|
            0 <= i < pins.len() ==> ((#[trigger] pins[i]) matches Some(abs) ==> !blank(abs)),
    ensures
        forall|i: int|
            0 <= i < st.projects.len() ==> !blank(
                (#[trigger] migrated(st, scratch, pins).projects[i]).workspace,
            ),
        forall|i: int|
            0 <= i < st.sessions.len() ==> {
                let s = #[trigger] migrated(st, scratch, pins).sessions[i];
                &&& !blank(s.project)
                &&& find_project(migrated(st, scratch, pins).projects, s.project) is Some
                    ==> !blank(s.workspace)
            },
{
    let m = migrated(st, scratch, pins);
    assert forall|i: int| 0 <= i < st.projects.len() implies !blank(
        (#[trigger] m.projects[i]).workspace,
    ) by {
        assert(pins[i] matches Some(abs) ==> !blank(abs));
    }
    assert forall|i: int| 0 <= i < st.sessions.len() implies {
        let s = #[trigger] m.sessions[i];
        &&& !blank(s.project)
        &&& find_project(m.projects, s.project) is Some ==> !blank(s.workspace)
    } by {
        let s = m.sessions[i];
        found_project(m.projects, s.project);
        if default_id(st).len() == 0 {
            assert(blank(default_id(st)));
        }
        match find_project(m.projects, s.project) {
            Some(k) => {
                assert(!blank(m.projects[k].workspace));
                if m.projects[k].workspace.len() == 0 {
                    assert(blank(m.projects[k].workspace));
                }
            },
            None => {},
        }
    }
}

/// A migration changes nothing of who a chat or a project is, nor of what is open.
pub proof fn migration_keeps_identities(
    st: StoreV,
    scratch: Seq<char>,
    pins: Seq<Option<Seq<char>>>,
)
    ensures
        migrated(st, scratch, pins).current == st.current,
        migrated(st, scratch, pins).current_project == st.current_project,
        migrated(st, scratch, pins).projects.len() == st.projects.len(),
        migrated(st, scratch, pins).sessions.len() == st.sessions.len(),
        forall|i: int|
            0 <= i < st.projects.len() ==> (#[trigger] migrated(st, scratch, pins).projects[i]).id
                == st.projects[i].id,
        forall|i: int|
            0 <= i < st.sessions.len() ==> {
                let s = #[trigger] migrated(st, scratch, pins).sessions[i];
                &&& s.id == st.sessions[i].id
                &&& s.name == st.sessions[i].name
                &&& !blank(st.sessions[i].workspace) ==> s.workspace == st.sessions[i].workspace
                &&& !blank(st.sessions[i].project) ==> s.project == st.sessions[i].project
            },
{
}

proof fn projects_without_facts(ps: Seq<ProjectMetaV>, id: Seq<char>)
    ensures
        projects_without(ps, id).len() <= ps.len(),
        forall|i: int|
            0 <= i < projects_without(ps, id).len() ==> (#[trigger] projects_without(ps, id)[i]).id
                != id,
        (exists|i: int| 0 <= i < ps.len() && (#[trigger] ps[i]).id != id) ==> projects_without(
            ps,
            id,
        ).len() > 0,
    decreases ps.len(),
{
    if ps.len() > 0 {
        let d = ps.drop_last();
        projects_without_facts(d, id);
        if exists|i: int| 0 <= i < ps.len() && (#[trigger] ps[i]).id != id {
            let i = choose|i: int| 0 <= i < ps.len() && (#[trigger] ps[i]).id != id;
            if i < d.len() {
                assert(d[i].id != id);
            }
        }
    }
}

/// Whether no two projects share an id.
pub open spec fn distinct_projects(ps: Seq<ProjectMetaV>) -> bool {
    forall|i: int, j: int| 0 <= i < j < ps.len() ==> (#[trigger] ps[i]).id != (#[trigger] ps[j]).id
}

/// Deleting a project loses no chat and leaves a project: every chat is still there, in its own
/// folder and under a project that is left, and the open chat stays open.
pub proof fn deleting_a_project_keeps_the_chats(st: StoreV, id: Seq<char>)
    requires
        st.projects.len() > 1,
        distinct_projects(st.projects),
    ensures
        ({
            let r = without_project(st, id);
            &&& r.projects.len() >= 1
            &&& find_project(r.projects, id) is None
            &&& r.current == st.current
            &&& r.current_project != id
            &&& r.sessions.len() == st.sessions.len()
            &&& forall|i: int|
                0 <= i < st.sessions.len() ==> {
                    let s = #[trigger] r.sessions[i];
                    &&& s.project != id
                    &&& s == SessionV { project: s.project, ..st.sessions[i] }
                    &&& st.sessions[i].project != id ==> s == st.sessions[i]
                }
        }),
{
    let r = without_project(st, id);
    projects_without_facts(st.projects, id);
    found_project(r.projects, id);
    assert(st.projects[0].id != st.projects[1].id);
    assert(exists|i: int| 0 <= i < st.projects.len() && (#[trigger] st.projects[i]).id != id);
    if find_project(r.projects, id) is Some {
        assert(r.projects[find_project(r.projects, id)->0].id != id);
    }
    assert(r.projects[0].id != id);
}

proof fn same_ids_same_place(a: Seq<SessionV>, b: Seq<SessionV>, id: Seq<char>)
    requires
        a.len() == b.len(),
        forall|i: int| 0 <= i < a.len() ==> (#[trigger] a[i]).id == b[i].id,
    ensures
        find_session(a, id) == find_session(b, id),
    decreases a.len(),
{
    if a.len() > 0 {
        assert(a.drop_last().len() == b.drop_last().len());
        assert forall|i: int| 0 <= i < a.drop_last().len() implies (#[trigger] a.drop_last()[i]).id
            == b.drop_last()[i].id by {
            assert(a[i].id == b[i].id);
        }
        same_ids_same_place(a.drop_last(), b.drop_last(), id);
        assert(a[a.len() - 1].id == b[a.len() - 1].id);
    }
}

/// A chat whose project is deleted goes on working where it worked.
pub proof fn a_chat_keeps_its_folder_when_its_project_goes(
    st: StoreV,
    project: Seq<char>,
    chat: Seq<char>,
    scratch: Seq<char>,
)
    requires
        find_session(st.sessions, chat) matches Some(i) && !blank(st.sessions[i].workspace),
    ensures
        workspace_of(without_project(st, project), chat, scratch) == workspace_of(
            st,
            chat,
            scratch,
        ),
{
    let r = without_project(st, project);
    found_session(st.sessions, chat);
    assert forall|i: int| 0 <= i < st.sessions.len() implies (#[trigger] st.sessions[i]).id
        == r.sessions[i].id by {}
    same_ids_same_place(st.sessions, r.sessions, chat);
    let i = find_session(st.sessions, chat)->0;
    assert(r.sessions[i].workspace == st.sessions[i].workspace);
}

proof fn sessions_without_facts(ss: Seq<SessionV>, id: Seq<char>)
    ensures
        sessions_without(ss, id).len() <= ss.len(),
        forall|i: int|
            0 <= i < sessions_without(ss, id).len() ==> {
                &&& (#[trigger] sessions_without(ss, id)[i]).id != id
                &&& ss.contains(sessions_without(ss, id)[i])
            },
        forall|i: int|
            0 <= i < ss.len() && (#[trigger] ss[i]).id != id ==> sessions_without(ss, id).contains(
                ss[i],
            ),
    decreases ss.len(),
{
    if ss.len() > 0 {
        let d = ss.drop_last();
        sessions_without_facts(d, id);
        let wd = sessions_without(d, id);
        let w = sessions_without(ss, id);
        assert forall|i: int| 0 <= i < w.len() implies (#[trigger] w[i]).id != id && ss.contains(
            w[i],
        ) by {
            if i < wd.len() {
                assert(wd[i].id != id);
                let k = choose|k: int| 0 <= k < d.len() && d[k] == wd[i];
                assert(ss[k] == w[i]);
            } else {
                assert(ss[ss.len() - 1] == w[i]);
            }
        }
        assert forall|i: int| 0 <= i < ss.len() && (#[trigger] ss[i]).id != id implies w.contains(
            ss[i],
        ) by {
            if i < d.len() {
                assert(d[i] == ss[i]);
                let k = choose|k: int| 0 <= k < wd.len() && wd[k] == d[i];
                assert(w[k] == ss[i]);
            } else {
                assert(w[w.len() - 1] == ss[i]);
            }
        }
    }
}

/// Deleting a chat deletes that chat and no other, and leaves a chat open that is there: the
/// one that was, or the first one.
pub proof fn deleting_a_chat_keeps_the_others(st: StoreV, id: Seq<char>)
    requires
        find_session(st.sessions, st.current) is Some,
    ensures
        ({
            let r = without_chat(st, id);
            &&& find_session(r.sessions, id) is None
            &&& forall|i: int|
                0 <= i < st.sessions.len() && (#[trigger] st.sessions[i]).id != id
                    ==> r.sessions.contains(st.sessions[i])
            &&& r.projects == st.projects
            &&& r.sessions.len() > 0 ==> find_session(r.sessions, r.current) is Some
        }),
{
    let r = without_chat(st, id);
    sessions_without_facts(st.sessions, id);
    found_session(r.sessions, id);
    found_session(r.sessions, r.current);
    found_session(st.sessions, st.current);
    if find_session(r.sessions, id) is Some {
        assert(r.sessions[find_session(r.sessions, id)->0].id != id);
    }
    if r.sessions.len() > 0 && find_session(r.sessions, r.current) is None {
        if st.current == id {
            assert(r.sessions[0].id == r.current);
        } else {
            let k = find_session(st.sessions, st.current)->0;
            assert(st.sessions[k].id != id);
            let j = choose|j: int| 0 <= j < r.sessions.len() && r.sessions[j] == st.sessions[k];
            assert(r.sessions[j].id == r.current);
        }
    }
}

/// A new chat that is not given a folder works in that of its project.
pub proof fn a_new_chat_works_in_its_projects_folder(
    st: StoreV,
    name: Seq<char>,
    model: Seq<char>,
    provider: Seq<char>,
    scratch: Seq<char>,
    now: u64,
)
    requires
        !blank(folder_of(st, st.current_project)),
        find_session(st.sessions, "s"@ + decimal_of(now as nat)) is None,
    ensures
        ({
            let s = new_chat(st, name, None, model, provider, scratch, now);
            workspace_of(with_chat(st, s), s.id, scratch) == trim_of(
                folder_of(st, st.current_project),
            )
        }),
{
    let s = new_chat(st, name, None, model, provider, scratch, now);
    let r = with_chat(st, s);
    assert(r.sessions.drop_last() =~= st.sessions);
    assert(find_session(r.sessions, s.id) == Some(st.sessions.len() as int));
}

// ---- what the operations are for -----------------------------------------------------------------------

/// The chats of a project are all the chats that are filed under it, in their order.
pub proof fn the_chats_of_a_project_are_all_listed(v: Seq<SessionV>, project: Seq<char>)
    ensures
        chats_of(v, project) == v.filter(|x: SessionV| x.project == project),
    decreases v.len(),
{
    reveal(Seq::filter);
    if v.len() > 0 {
        the_chats_of_a_project_are_all_listed(v.drop_last(), project);
    }
}

/// Deleting a project leaves all the others, in their order.
pub proof fn only_that_project_goes(v: Seq<ProjectMetaV>, id: Seq<char>)
    ensures
        projects_without(v, id) == v.filter(|x: ProjectMetaV| x.id != id),
    decreases v.len(),
{
    reveal(Seq::filter);
    if v.len() > 0 {
        only_that_project_goes(v.drop_last(), id);
    }
}

/// Deleting a chat leaves all the others, in their order.
pub proof fn only_that_chat_goes(v: Seq<SessionV>, id: Seq<char>)
    ensures
        sessions_without(v, id) == v.filter(|x: SessionV| x.id != id),
    decreases v.len(),
{
    reveal(Seq::filter);
    if v.len() > 0 {
        only_that_chat_goes(v.drop_last(), id);
    }
}

/// The system messages of a history are all its messages of that role, in their order.
pub proof fn the_system_messages_are_all_there(v: Seq<MsgV>)
    ensures
        system_messages(v) == v.filter(|x: MsgV| x.role == "system"@),
    decreases v.len(),
{
    reveal(Seq::filter);
    if v.len() > 0 {
        the_system_messages_are_all_there(v.drop_last());
    }
}

/// A project has as many chats as are filed under it.
pub proof fn every_chat_counts(v: Seq<SessionV>, project: Seq<char>)
    ensures
        chats_in(v, project) == v.filter(|x: SessionV| x.project == project).len(),
    decreases v.len(),
{
    reveal(Seq::filter);
    if v.len() > 0 {
        every_chat_counts(v.drop_last(), project);
    }
}

/// A new chat is what was asked for: under its name, with its model and provider, in the open
/// project, in the folder that it was given. It stands behind the others, which stay as they are,
/// and is the open one.
pub proof fn a_new_chat_is_what_was_asked_for(
    st: StoreV,
    name: Seq<char>,
    folder: Option<Seq<char>>,
    model: Seq<char>,
    provider: Seq<char>,
    scratch: Seq<char>,
    now: u64,
)
    ensures
        ({
            let s = new_chat(st, name, folder, model, provider, scratch, now);
            let r = with_chat(st, s);
            let n = st.sessions.filter(|x: SessionV| x.project == st.current_project).len();
            &&& !blank(name) ==> s.name == trim_of(name)
            &&& blank(name) && n == 0 ==> s.name == "New task"@
            &&& blank(name) && n > 0 ==> s.name == "New task "@ + decimal_of((n + 1) as nat)
            &&& s.model == trim_of(model)
            &&& s.provider == trim_of(provider)
            &&& s.project == st.current_project
            &&& s.created == now
            &&& folder matches Some(f) ==> s.workspace == f
            &&& folder is None && !blank(folder_of(st, st.current_project)) ==> s.workspace
                == folder_of(st, st.current_project)
            &&& folder is None && blank(folder_of(st, st.current_project)) ==> s.workspace == scratch
            &&& !s.managed_worktree
            &&& r.sessions.len() == st.sessions.len() + 1
            &&& r.sessions.drop_last() == st.sessions
            &&& r.sessions.last() == s
            &&& r.current == s.id
            &&& r.projects == st.projects
            &&& r.current_project == st.current_project
        }),
{
    let s = new_chat(st, name, folder, model, provider, scratch, now);
    every_chat_counts(st.sessions, st.current_project);
    assert(with_chat(st, s).sessions.drop_last() =~= st.sessions);
}

/// A new project has the folder and the name that it was given; without a name it is called after
/// its folder. It stands behind the others, which stay as they are, and is the open one.
pub proof fn a_new_project_is_what_was_asked_for(st: StoreV, name: Seq<char>, folder: Folder, now: u64)
    ensures
        ({
            let p = new_project(name, folder, now);
            let r = with_project(st, p);
            &&& p.workspace == folder.path@
            &&& p.created == now
            &&& !blank(name) ==> p.name == trim_of(name)
            &&& blank(name) && folder.scratch ==> p.name == "Tasks"@
            &&& blank(name) && !folder.scratch ==> p.name == folder.name@
            &&& r.projects.len() == st.projects.len() + 1
            &&& r.projects.drop_last() == st.projects
            &&& r.projects.last() == p
            &&& r.current_project == p.id
            &&& r.sessions == st.sessions
            &&& r.current == st.current
        }),
{
    let p = new_project(name, folder, now);
    assert(with_project(st, p).projects.drop_last() =~= st.projects);
}

/// A project that is moved takes its chats along and no others, and nothing else of any of them
/// changes.
pub proof fn a_project_takes_its_chats_along(st: StoreV, i: int, ws: Seq<char>, k: int)
    requires
        0 <= i < st.projects.len(),
        0 <= k < st.sessions.len(),
    ensures
        ({
            let r = moved(st, i, ws);
            let a = st.sessions[k];
            let b = r.sessions[k];
            &&& r.projects.len() == st.projects.len()
            &&& r.projects[i].workspace == ws
            &&& r.projects[i] == (ProjectMetaV { workspace: ws, ..st.projects[i] })
            &&& forall|j: int|
                0 <= j < st.projects.len() && j != i ==> #[trigger] r.projects[j] == st.projects[j]
            &&& r.sessions.len() == st.sessions.len()
            &&& a.project == st.projects[i].id ==> b == (SessionV { workspace: ws, ..a })
            &&& a.project != st.projects[i].id ==> b == a
            &&& r.current == st.current
            &&& r.current_project == st.current_project
        }),
{
}

/// A chat runs in its own folder where it has one, and otherwise in that of the project that it is
/// filed under; only where there is neither does it run in the one for one-off work.
pub proof fn a_chat_runs_in_its_own_place(st: StoreV, id: Seq<char>, scratch: Seq<char>, i: int, p: int)
    requires
        0 <= i < st.sessions.len(),
        st.sessions[i].id == id,
        forall|j: int| 0 <= j < i ==> (#[trigger] st.sessions[j]).id != id,
    ensures
        ({
            let s = st.sessions[i];
            &&& !blank(s.workspace) ==> workspace_of(st, id, scratch) == trim_of(s.workspace)
            &&& blank(s.workspace) && 0 <= p < st.projects.len() && st.projects[p].id == (if blank(
                s.project,
            ) {
                st.current_project
            } else {
                s.project
            }) && (forall|j: int| 0 <= j < p ==> (#[trigger] st.projects[j]).id != st.projects[p].id) ==> {
                &&& !blank(st.projects[p].workspace) ==> workspace_of(st, id, scratch)
                    == st.projects[p].workspace
                &&& blank(st.projects[p].workspace) ==> workspace_of(st, id, scratch) == scratch
                &&& project_name_of(st, id) == st.projects[p].name
            }
            &&& blank(s.workspace) && !blank(s.project) && (forall|j: int|
                0 <= j < st.projects.len() ==> (#[trigger] st.projects[j]).id != s.project)
                ==> workspace_of(st, id, scratch) == scratch
        }),
{
    found_session(st.sessions, id);
    let s = st.sessions[i];
    let k = find_session(st.sessions, id);
    if k is None {
        assert(st.sessions[i].id != id);
    } else if k->Some_0 < i {
        assert(st.sessions[k->Some_0].id != id);
    } else if k->Some_0 > i {
        assert(st.sessions[i].id != id);
    }
    assert(k == Some(i));
    let home = home_of(st, id);
    found_project(st.projects, home);
    let f = find_project(st.projects, home);
    if 0 <= p < st.projects.len() && st.projects[p].id == home && (forall|j: int|
        0 <= j < p ==> (#[trigger] st.projects[j]).id != st.projects[p].id) {
        if f is None {
            assert(st.projects[p].id != home);
        } else if f->Some_0 < p {
            assert(st.projects[f->Some_0].id != st.projects[p].id);
        } else if f->Some_0 > p {
            assert(st.projects[p].id != home);
        }
        assert(f == Some(p));
    }
}

/// A migration gives a project without a folder the one for one-off work, and pins one that has a
/// folder where that can be pinned; the name changes only of one that had no folder and went by an
/// old name, or is the first.
pub proof fn a_migration_settles_each_project(
    p: ProjectMetaV,
    first: Seq<char>,
    scratch: Seq<char>,
    pin: Option<Seq<char>>,
)
    ensures
        ({
            let r = settled_project(p, first, scratch, pin);
            let t = trim_of(p.name);
            &&& r.id == p.id && r.created == p.created
            &&& blank(p.workspace) ==> r.workspace == scratch
            &&& blank(p.workspace) && (p.id == first || t == "Default"@ || t == "Chats"@) ==> r.name
                == "Tasks"@
            &&& blank(p.workspace) && p.id != first && t != "Default"@ && t != "Chats"@ ==> r.name
                == p.name
            &&& !blank(p.workspace) ==> r.name == p.name && r.workspace == match pin {
                Some(abs) => abs,
                None => p.workspace,
            }
        }),
{
}

/// A migration gives a chat without a project the first one, and a chat without a folder that of its
/// project; the rest of a chat stays as it is.
pub proof fn a_migration_settles_each_chat(s: SessionV, first: Seq<char>, projects: Seq<ProjectMetaV>)
    ensures
        ({
            let r = settled_session(s, first, projects);
            &&& r == (SessionV { project: r.project, workspace: r.workspace, ..s })
            &&& !blank(s.project) || first.len() == 0 ==> r.project == s.project
            &&& blank(s.project) && first.len() > 0 ==> r.project == first
            &&& !blank(s.workspace) ==> r.workspace == s.workspace
            &&& blank(s.workspace) ==> (find_project(projects, r.project) matches Some(i)
                ==> projects[i].workspace.len() > 0 ==> r.workspace == projects[i].workspace)
        }),
{
}

/// Opening a store loses no project and no chat, and changes the model of none.
pub proof fn opening_a_store_loses_nothing(
    read: StoreV,
    folder: Folder,
    pins: Seq<Option<Seq<char>>>,
    scratch: Seq<char>,
    now: u64,
    i: int,
)
    ensures
        ({
            let r = opened(read, folder, pins, scratch, now);
            &&& 0 <= i < read.projects.len() ==> i < r.projects.len() && r.projects[i].id
                == read.projects[i].id && (!blank(read.projects[i].workspace) ==> r.projects[i].name
                == read.projects[i].name)
            &&& 0 <= i < read.sessions.len() ==> i < r.sessions.len() && r.sessions[i].id
                == read.sessions[i].id && r.sessions[i].name == read.sessions[i].name
                && r.sessions[i].model == read.sessions[i].model && r.sessions[i].provider
                == read.sessions[i].provider && r.sessions[i].created == read.sessions[i].created && (
            !blank(read.sessions[i].workspace) ==> r.sessions[i].workspace
                == read.sessions[i].workspace)
            &&& read.sessions.len() > 0 ==> r.current == read.current && r.sessions.len()
                == read.sessions.len()
            &&& read.projects.len() > 0 ==> r.current_project == read.current_project
                && r.projects.len() == read.projects.len()
        }),
{
}

/// A front end is told all of a project and of a chat.
pub proof fn a_front_end_is_told_all(p: ProjectMetaV, s: SessionV, flag: bool)
    ensures
        ({
            let j = project_entry(p, flag);
            &&& j.field("id"@) == Some(JsonV::Text(p.id))
            &&& j.field("name"@) == Some(JsonV::Text(p.name))
            &&& j.field("workspace"@) == Some(JsonV::Text(p.workspace))
            &&& j.field("created"@) == Some(JsonV::Unsigned(p.created))
            &&& j.field("scratch"@) == Some(JsonV::Bool(flag))
        }),
        ({
            let j = session_entry(s, flag);
            &&& j.field("id"@) == Some(JsonV::Text(s.id))
            &&& j.field("name"@) == Some(JsonV::Text(s.name))
            &&& j.field("created"@) == Some(JsonV::Unsigned(s.created))
            &&& j.field("workspace"@) == Some(JsonV::Text(s.workspace))
            &&& j.field("project"@) == Some(JsonV::Text(s.project))
            &&& j.field("model"@) == Some(JsonV::Text(s.model))
            &&& j.field("state"@) == Some(JsonV::Text(s.state))
            &&& j.field("detached"@) == Some(JsonV::Bool(flag))
        }),
{
    broadcast use a_field_reads_back, no_field_to_read;

    reveal_strlit("id");
    reveal_strlit("name");
    reveal_strlit("workspace");
    reveal_strlit("created");
    reveal_strlit("scratch");
    reveal_strlit("project");
    reveal_strlit("model");
    reveal_strlit("state");
    reveal_strlit("detached");
    assert("id"@.len() == 2);
    assert("name"@.len() == 4);
    assert("workspace"@.len() == 9);
    assert("created"@.len() == 7);
    assert("scratch"@.len() == 7);
    assert("project"@.len() == 7);
    assert("model"@.len() == 5);
    assert("state"@.len() == 5);
    assert("detached"@.len() == 8);
    assert("created"@[0] == 'c' && "scratch"@[0] == 's');
    assert("created"@[0] == 'c' && "project"@[0] == 'p');
    assert("scratch"@[0] == 's' && "project"@[0] == 'p');
    assert("model"@[0] == 'm' && "state"@[0] == 's');
}

/// An index is read whole: which chat and which project is open, and every entry of either list.
pub proof fn an_index_is_read_whole(v: JsonV)
    ensures
        ({
            let r = index_in(Some(v));
            &&& v.field("current"@) matches Some(JsonV::Text(t)) ==> r.current == t
            &&& v.field("current_project"@) matches Some(JsonV::Text(t)) ==> r.current_project == t
            &&& v.field("sessions"@) matches Some(JsonV::Array(a)) ==> r.sessions == a
            &&& v.field("projects"@) matches Some(JsonV::Array(a)) ==> r.projects == a
        }),
{
}

/// Cutting a history down keeps every system message and the recent tail, unchanged.
pub proof fn cutting_down_keeps_the_tail(h: Seq<MsgV>)
    requires
        splittable(h),
    ensures
        ({
            let systems = h.filter(|x: MsgV| x.role == "system"@);
            let split = split_point(h, 1_000_000);
            let c = cut_down(h);
            &&& c.len() == systems.len() + (h.len() - split)
            &&& c.take(systems.len() as int) == systems
            &&& c.skip(systems.len() as int) == h.skip(split)
        }),
{
    the_system_messages_are_all_there(h);
    crate::engine::split_never_strands_a_tool_result(h, 1_000_000);
    let systems = system_messages(h);
    let split = split_point(h, 1_000_000);
    let c = cut_down(h);
    assert(c.take(systems.len() as int) =~= systems);
    assert(c.skip(systems.len() as int) =~= h.skip(split));
}

/// A fork owns no worktree, so that deleting it takes none from its source.
pub proof fn a_fork_owns_no_worktree(src: SessionV, name: Seq<char>, now: u64)
    ensures
        !forked(src, name, now).managed_worktree,
        forked(src, name, now).worktree_base.len() == 0,
        forked(src, name, now).worktree_branch.len() == 0,
        forked(src, name, now).created == now,
{
}

/// A chat is detached where its project has a folder and the chat is somewhere else.
pub proof fn a_chat_elsewhere_is_detached(st: StoreV, id: Seq<char>)
    ensures
        !blank(folder_of(st, home_of(st, id))) ==> is_detached(st, id, false),
        !is_detached(st, id, true),
        blank(folder_of(st, home_of(st, id))) ==> !is_detached(st, id, false),
{
}

/// A migration says that something was out of date exactly where it changes something, as long as
/// the folder for one-off work is not itself blank.
pub proof fn a_migration_says_whether_it_changed_anything(
    st: StoreV,
    scratch: Seq<char>,
    pins: Seq<Option<Seq<char>>>,
    i: int,
)
    requires
        pins.len() == st.projects.len(),
        !blank(scratch),
    ensures
        0 <= i < st.projects.len() && migrated(st, scratch, pins).projects[i] != st.projects[i]
            ==> unsettled(st, scratch, pins),
        0 <= i < st.sessions.len() && migrated(st, scratch, pins).sessions[i] != st.sessions[i]
            ==> unsettled(st, scratch, pins),
        0 <= i < st.projects.len() && blank(st.projects[i].workspace) ==> unsettled(st, scratch, pins)
            && migrated(st, scratch, pins).projects[i] != st.projects[i],
{
    let r = migrated(st, scratch, pins);
    let projects = settled_projects(st, scratch, pins);
    if 0 <= i < st.projects.len() {
        let p = st.projects[i];
        if r.projects[i] != p {
            assert(unsettled_project(p, pins[i]));
        }
        if blank(p.workspace) {
            assert(unsettled_project(p, pins[i]));
            assert(r.projects[i].workspace == scratch);
        }
    }
    if 0 <= i < st.sessions.len() {
        let s = st.sessions[i];
        if r.sessions[i] != s {
            assert(unsettled_session(s, default_id(st), projects));
        }
    }
}

/// What a front end is shown of a chat and of a project is all of it.
pub proof fn what_is_shown_is_the_chat(st: StoreV, s: SessionV, p: ProjectMetaV, scratch: Seq<char>, j: JsonV)
    ensures
        shows_chat(st, s, scratch, j) ==> j.field("id"@) == Some(JsonV::Text(s.id)) && j.field("name"@)
            == Some(JsonV::Text(s.name)) && j.field("workspace"@) == Some(JsonV::Text(s.workspace))
            && j.field("project"@) == Some(JsonV::Text(s.project)) && j.field("model"@) == Some(
            JsonV::Text(s.model),
        ) && j.field("state"@) == Some(JsonV::Text(s.state)),
        shows_project(p, scratch, j) ==> j.field("id"@) == Some(JsonV::Text(p.id)) && j.field("name"@)
            == Some(JsonV::Text(p.name)) && j.field("workspace"@) == Some(JsonV::Text(p.workspace)),
{
    a_front_end_is_told_all(p, s, true);
    a_front_end_is_told_all(p, s, false);
}

} // verus!
