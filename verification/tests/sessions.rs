use e_lib::engine::sessions::{
    chosen_folder, is_scratch, read_index, ProjectMeta, SessionMeta, SessionStore, DEFAULT_PROJECT,
};
use e_lib::engine::{Msg, Part, ToolCall};
use e_lib::json::Json;
use e_lib::paths::{absolute_with, absolute_workspace, basename_of, folder_at, Place};

fn place() -> Place {
    Place { scratch: "/home/x/.e/tasks".into(), cwd: "/work/here".into() }
}

fn scratch_workspace() -> String {
    place().scratch
}

fn store(projects: Vec<ProjectMeta>, sessions: Vec<SessionMeta>) -> SessionStore {
    SessionStore { sessions, projects, current: String::new(), current_project: String::new() }
}

fn project(id: &str, name: &str, workspace: &str) -> ProjectMeta {
    ProjectMeta { id: id.into(), name: name.into(), workspace: workspace.into(), created: 0 }
}

fn session(id: &str, project: &str, workspace: &str) -> SessionMeta {
    SessionMeta {
        id: id.into(),
        name: id.into(),
        created: 0,
        workspace: workspace.into(),
        project: project.into(),
        model: String::new(),
        provider: String::new(),
        state: String::new(),
        managed_worktree: false,
        worktree_base: String::new(),
        worktree_branch: String::new(),
    }
}

/// Migrates a store of which no relative folder exists.
fn migrate(st: &mut SessionStore) -> bool {
    let pins = st.projects.iter().map(|_| None).collect();
    st.migrate(&place(), &pins)
}

#[test]
fn folderless_default_becomes_tasks_with_a_scratch_folder() {
    let mut st = store(vec![project("p1", "Default", "")], vec![]);
    assert!(migrate(&mut st));
    assert_eq!(st.projects[0].name, DEFAULT_PROJECT);
    assert_eq!(st.projects[0].workspace, scratch_workspace());
    assert!(!migrate(&mut st), "a migrated store is up to date");
}

#[test]
fn a_real_project_named_default_is_left_alone() {
    let mut st = store(
        vec![project("p1", "Tasks", ""), project("p2", "Default", "C:/src/thing")],
        vec![],
    );
    migrate(&mut st);
    assert_eq!(st.projects[1].name, "Default");
    assert_eq!(st.projects[1].workspace, "C:/src/thing");
}

#[test]
fn a_chat_without_a_folder_resolves_to_its_own_project() {
    let mut st = store(
        vec![project("p1", "Tasks", ""), project("p2", "mascot", "C:/src/mascot")],
        vec![session("s1", "p1", ""), session("s2", "p2", "")],
    );
    migrate(&mut st);
    assert_eq!(st.resolved_workspace("s1", &place()), scratch_workspace());
    assert_eq!(st.resolved_workspace("s2", &place()), "C:/src/mascot");
}

#[test]
fn project_context_distinguishes_scratch_from_a_real_project() {
    let mut st = store(
        vec![project("p1", "Default", ""), project("p2", "mascot", "C:/src/mascot")],
        vec![session("s1", "p1", ""), session("s2", "p2", "")],
    );
    migrate(&mut st);

    let tasks = st.project_context("s1", &place());
    assert_eq!(tasks.name, DEFAULT_PROJECT);
    assert!(tasks.scratch);

    let mascot = st.project_context("s2", &place());
    assert_eq!(mascot.name, "mascot");
    assert!(!mascot.scratch);
}

#[test]
fn orphan_chats_are_adopted_by_the_default_project() {
    let mut st = store(vec![project("p1", "Chats", "")], vec![session("s1", "", "")]);
    migrate(&mut st);
    assert_eq!(st.sessions[0].project, "p1");
    assert_eq!(st.resolved_workspace("s1", &place()), scratch_workspace());
}

#[test]
fn resolvable_relative_project_folders_are_pinned_to_absolute_paths() {
    let mut st = store(vec![project("p1", "Tasks", ""), project("p2", "rel", "src")], vec![]);
    let abs = absolute_workspace("src", &place().cwd);
    assert!(st.migrate(&place(), &vec![None, Some(abs.clone())]));
    assert_eq!(st.projects[1].workspace, abs);
    assert!(std::path::Path::new(&st.projects[1].workspace).is_absolute());
}

#[test]
fn a_broken_relative_folder_is_left_for_the_user_to_repoint() {
    let mut st = store(
        vec![project("p1", "Tasks", ""), project("p2", "0xAlpha", "0xAlpha")],
        vec![],
    );
    migrate(&mut st);
    assert_eq!(st.projects[1].workspace, "0xAlpha");
}

#[test]
fn a_chat_whose_project_was_deleted_is_reported_as_detached() {
    let mut st = store(
        vec![project("p1", "Tasks", ""), project("p2", "mascot", "C:/src/mascot")],
        vec![session("s1", "p2", "")],
    );
    migrate(&mut st);
    assert!(!st.project_context("s1", &place()).detached);

    assert!(st.project_remove("p2"));

    let ctx = st.project_context("s1", &place());
    assert_eq!(st.resolved_workspace("s1", &place()), "C:/src/mascot", "folder must be kept");
    assert!(ctx.detached, "refiled under {:?} but still in mascot", ctx.name);
    assert!(!ctx.scratch);
}

#[test]
fn a_chat_sitting_in_its_own_projects_folder_is_not_detached() {
    let mut st = store(
        vec![project("p1", "Tasks", ""), project("p2", "mascot", "C:/src/mascot")],
        vec![session("s1", "p2", ""), session("s2", "p1", "")],
    );
    migrate(&mut st);
    assert!(!st.project_context("s1", &place()).detached);
    assert!(!st.project_context("s2", &place()).detached);
}

#[test]
fn deleting_a_project_keeps_the_selected_chat() {
    let mut st = store(
        vec![project("p1", "Tasks", ""), project("p2", "mascot", "C:/src/mascot")],
        vec![session("s1", "p2", ""), session("s2", "p1", "")],
    );
    migrate(&mut st);
    st.current = "s1".into();
    st.project_remove("p2");
    assert_eq!(st.current, "s1");
    assert_eq!(st.sessions.len(), 2, "chats are kept, not deleted");
    assert!(!st.project_remove("p1"), "one project always stays");
}

#[test]
fn a_new_chat_inherits_the_current_projects_folder() {
    let mut st = store(vec![project("p2", "mascot", "C:/src/mascot")], vec![]);
    st.current_project = "p2".into();
    let (meta, empty) = st.create("", None, "", "", &place(), 5);
    assert_eq!((empty.id.as_str(), empty.messages.len()), ("s5", 0), "its stored history is empty");
    assert_eq!(meta.project, "p2");
    assert_eq!(st.resolved_workspace(&meta.id, &place()), "C:/src/mascot");
    assert_eq!((meta.id.as_str(), meta.name.as_str()), ("s5", "New task"));
    let (second, _) = st.create(" ", Some("/own".into()), " m ", " p ", &place(), 6);
    assert_eq!(second.name, "New task 2");
    assert_eq!((second.workspace.as_str(), second.model.as_str(), second.provider.as_str()), ("/own", "m", "p"));
    assert_eq!(st.current, "s6");
}

#[test]
fn a_new_store_has_a_project_and_a_chat() {
    let folder = folder_at("", &place());
    let (st, first) = SessionStore::new(store(vec![], vec![]), folder, &vec![], &place(), 9);
    assert_eq!(first.map(|w| (w.id, w.messages.len())), Some(("s9".to_string(), 0)));
    assert_eq!((st.projects.len(), st.sessions.len()), (1, 1));
    assert_eq!((st.projects[0].id.as_str(), st.projects[0].name.as_str()), ("p9", "Tasks"));
    assert_eq!((st.sessions[0].name.as_str(), st.sessions[0].project.as_str()), ("Chat 1", "p9"));
    assert_eq!(st.current_project_workspace(), scratch_workspace());
}

#[test]
fn projects_are_made_moved_renamed_and_opened() {
    let mut st = store(vec![], vec![]);
    let p = st.project_create("", folder_at("/src/mascot", &place()), 1);
    assert_eq!((p.name.as_str(), p.workspace.as_str()), ("mascot", "/src/mascot"));
    let t = st.project_create("", folder_at(" ", &place()), 2);
    assert_eq!(t.name, "Tasks");
    assert_eq!(st.current_project, "p2");
    assert!(st.project_switch("p1") && !st.project_switch("p7"));
    let (chat, _) = st.create("a", None, "", "", &place(), 3);
    assert!(st.project_set_workspace("p1", "/src/other"));
    assert!(!st.project_set_workspace("p7", "/x"));
    assert_eq!(st.session(&chat.id).unwrap().workspace, "/src/other");
    assert_eq!(st.project_workspace("p1"), "/src/other");
    assert!(st.project_rename("p1", " New ") && !st.project_rename("p1", "  "));
    assert_eq!(st.projects[0].name, "New");
    let list = st.project_list_json(&place());
    assert_eq!(list[0].get("scratch"), Some(&Json::Bool(false)));
    assert_eq!(list[1].get("scratch"), Some(&Json::Bool(true)));
}

#[test]
fn chats_are_changed_forked_and_deleted() {
    let mut st = store(
        vec![project("p1", "a", "/a")],
        vec![session("s1", "p1", "/a"), session("s2", "p1", "/b")],
    );
    st.current = "s1".into();
    assert!(st.set_model("s1", "m", "prov") && !st.set_model("s9", "m", "prov"));
    assert_eq!((st.model("s1"), st.provider("s1"), st.model("s9")), ("m".into(), "prov".into(), String::new()));
    assert!(st.set_state("s1", "busy") && !st.set_state("s9", "busy"));
    assert!(st.rename_session("s1", " one ") && !st.rename_session("s1", ""));
    assert!(st.set_managed_worktree("s1", "/wt/s1", "/a", "e/s1"));
    let (f, copy) = st.fork("s1", "", vec![Msg::text("user", "hi")], 7).unwrap();
    assert_eq!((copy.id.as_str(), copy.messages.len()), ("s7", 1), "the transcript goes with it");
    assert_eq!(copy.messages[0].plain_text_parts(), "hi");
    assert_eq!((f.id.as_str(), f.name.as_str(), f.model.as_str()), ("s7", "one (fork)", "m"));
    assert!(!f.managed_worktree, "a copy does not own the worktree");
    assert!(st.fork("s9", "", vec![], 8).is_none());
    assert_eq!(st.sessions_in("p1").len(), 3);
    assert_eq!(st.session_list_json(&place())[1].get("detached"), Some(&Json::Bool(true)));
    assert!(st.switch("s1") && !st.switch("s9"));
    st.remove("s1");
    assert_eq!(st.current, "s2");
    assert_eq!(st.sessions.len(), 2);
}

#[test]
fn a_long_history_is_cut_down_without_a_model() {
    let st = store(vec![], vec![]);
    let mut hist = vec![Msg::text("system", "rules")];
    for i in 0..100 {
        hist.push(Msg::text("user", &format!("m{i}")));
    }
    let (n, out) = st.compact(&hist);
    let out = out.unwrap();
    assert_eq!((n, out.len()), (41, 41));
    assert_eq!(out[0].role, "system");
    assert_eq!(out[40].plain_text_parts(), "m99");
    let (n, out) = st.compact(&vec![Msg::text("user", "short")]);
    assert_eq!((n, out.is_none()), (1, true));
}

#[test]
fn folders_are_made_absolute() {
    assert_eq!(absolute_workspace("  ", "/cwd"), "/cwd");
    assert_eq!(absolute_workspace(" /a/b ", "/cwd"), "/a/b");
    assert_eq!(absolute_workspace("b", "/cwd"), "/cwd/b");
    assert_eq!(absolute_with("b", "/cwd", false, "/cwd/b"), "/cwd/b");
    assert_eq!(basename_of("/a/mascot"), "mascot");
    assert_eq!(basename_of("/"), "Project");
    assert!(is_scratch(" /home/x/.e/tasks/ ", &place()), "a slash at the end changes nothing");
    assert!(!is_scratch("", &place()) && !is_scratch("/home/x", &place()));
    assert_eq!(chosen_folder(" ", &place()), None);
    assert_eq!(chosen_folder("x", &place()), Some("/work/here/x".into()));
}

#[test]
fn a_history_is_repaired_once_and_read_back() {
    let st = store(vec![], vec![]);
    let dangling = Msg::assistant(vec![Part::ToolCall(ToolCall {
        id: "c1".into(),
        name: "shell".into(),
        arguments: Json::Null,
    })]);
    let (history, back) = st.get_history("s1", Some(vec![Msg::text("user", "hi"), dangling]));
    assert_eq!(history.len(), 3, "the call got a result");
    let back = back.expect("the repair is stored");
    assert_eq!((back.id.as_str(), back.messages.len()), ("s1", 3));
    let (again, back) = st.get_history("s1", Some(back.messages));
    assert_eq!(again.len(), 3);
    assert!(back.is_none(), "there is nothing left to repair");
    assert!(st.get_history("s1", None).0.is_empty());
    assert!(st.get_history("", Some(vec![Msg::text("user", "hi")])).0.is_empty());
    assert_eq!(st.set_history("s1", vec![]).map(|w| w.id), Some("s1".to_string()));
    assert!(st.set_history("", vec![]).is_none());
}

#[test]
fn an_index_is_read_as_far_as_it_goes() {
    let index = read_index(
        r#"{ "current": "s1", "current_project": 7, "sessions": [{ "id": "s1" }, 3], "projects": {} }"#,
    );
    assert_eq!((index.current.as_str(), index.current_project.as_str()), ("s1", ""));
    assert_eq!((index.sessions.len(), index.projects.len()), (2, 0));
    assert_eq!(index.sessions[0].get_str("id").as_deref(), Some("s1"));
    let broken = read_index("{ oops");
    assert!(broken.current.is_empty() && broken.sessions.is_empty());
}

#[test]
fn a_chat_elsewhere_is_detached_and_not_scratch() {
    let st = store(vec![project("p1", "a", "/a")], vec![session("s1", "p1", "/b"), session("s2", "p1", "/a/")]);
    let away = st.project_context("s1", &place());
    assert!(away.detached && !away.scratch);
    assert!(!st.project_context("s2", &place()).detached, "a slash at the end is the same folder");
    let home = store(vec![], vec![session("s1", "", "/home/x/.e/tasks")]);
    assert!(home.project_context("s1", &place()).scratch);
}
