use e_lib::chat::{
    attachment, attachment_path, event, pane_root, path_is_dir, prepare_message, read_command,
    response, run_config, state_after, target, Command, MAX_ATTACHMENT,
};
use e_lib::engine::agent::Agent;
use e_lib::engine::config::{Config, ModelMeta, Overrides, ProviderItem};
use e_lib::engine::plugins::{read_info, ManifestFile};
use e_lib::engine::sessions::SessionMeta;
use e_lib::engine::{Msg, Part, COMPACTION_MARKER};
use e_lib::engine::provider::models::listed_models;
use e_lib::json::{parse, render, Json};
use e_lib::runs::{CloseGuard, Runs};
use e_lib::search::{search_sessions, snippet_around};
use e_lib::settings::{
    mark_enabled, migrate_keys, refresh_models, restore_keys, save_config, set_plugin_enabled, KeyDeed,
};
use e_lib::transcript::{
    context_estimate, finish_compaction, get_session, not_needed, plan_compaction, summary_prompt,
    Compaction,
};
use e_lib::worktrees::{
    not_deleted, printed_name, provision, remove_task_worktree, snapshot_message, snapshot_refs,
    Creation, Found, Provision, Stage, Step, Want,
};

fn session(id: &str, name: &str) -> SessionMeta {
    SessionMeta {
        id: id.into(),
        name: name.into(),
        created: 0,
        workspace: "/ws".into(),
        project: "p".into(),
        model: String::new(),
        provider: String::new(),
        state: String::new(),
        managed_worktree: false,
        worktree_base: String::new(),
        worktree_branch: String::new(),
    }
}

fn config() -> Config {
    Config::from_env(
        "/cwd",
        None,
        Overrides { api_key: None, base_url: None, model: None, workspace: None, yolo: None },
    )
}

#[test]
fn a_chat_runs_once_and_is_stopped_alone() {
    let mut r = Runs::new();
    let a = r.begin_run("a").unwrap();
    let b = r.begin_run("b").unwrap();
    assert!(r.begin_run("a").is_none());
    let c = r.begin_compaction("a");
    assert_eq!(r.cancel("a"), vec![a, c]);
    assert_eq!(r.cancel("b"), vec![b]);
    assert!(r.cancel("x").is_empty());
    assert_eq!(r.running(), vec!["a", "b"]);
    r.end_run("a");
    assert!(!r.is_running("a") && r.is_running("b"));
    assert_ne!(r.begin_run("a").unwrap(), a, "a new run was never stopped");
    let d = r.begin_compaction("a");
    assert_eq!(r.cancel_all().len(), 3);
    assert!(r.cancel("a").contains(&d) && !r.cancel("a").contains(&c));
    r.end_compaction("a");
    assert_eq!(r.cancel("a").len(), 1);
}

#[test]
fn closing_is_confirmed_once() {
    let mut g = CloseGuard { ui_ready: false, pending: false };
    assert!(!g.close_requested(), "nobody could ask");
    g.ui_ready = true;
    assert!(g.close_requested());
    assert!(!g.close_requested(), "a second attempt is let through");
    g.pending = false;
    assert!(g.close_requested());
}

#[test]
fn snippets_are_cut_between_characters() {
    let text = format!("{}needle{}", "é".repeat(30), "ü".repeat(60));
    let s = snippet_around(&text, 60, 6);
    assert_eq!(s, format!("{}needle{}", "é".repeat(20), "ü".repeat(40)));
    assert_eq!(snippet_around(&text, 61, 6), format!("{}needle{}", "é".repeat(20), "ü".repeat(41)));
    assert_eq!(snippet_around("abc", 0, 1), "abc");
    assert_eq!(snippet_around("abc", 500, 1), "");
}

#[test]
fn chats_are_searched_by_name_and_by_text() {
    let sessions = vec![session("s1", "Ärger"), session("s2", "two"), session("s3", "three")];
    let hists = vec![
        vec![],
        vec![
            Msg::text("system", "needle"),
            Msg::text("user", &format!("{COMPACTION_MARKER}a NEEDLE in hay")),
            Msg::text("user", "needle again"),
        ],
        vec![Msg::text("user", "nothing")],
    ];
    assert_eq!(
        render(&search_sessions(&sessions, &hists, " needle ")),
        "{\"results\":[{\"project\":\"p\",\"role\":\"user\",\"session_id\":\"s2\",\"session_name\":\"two\",\"snippet\":\"a NEEDLE in hay\"}]}"
    );
    assert_eq!(
        render(&search_sessions(&sessions, &hists, "äRG")),
        "{\"results\":[{\"project\":\"p\",\"session_id\":\"s1\",\"session_name\":\"Ärger\",\"snippet\":\"Ärger\"}]}"
    );
    assert_eq!(render(&search_sessions(&sessions, &hists, "  ")), "{\"results\":[]}");
}

#[test]
fn a_transcript_shows_what_there_is_to_show() {
    let hist = vec![
        Msg::text("system", "rules"),
        Msg::text("user", &format!("{COMPACTION_MARKER}sum")),
        Msg::assistant(vec![Part::Reasoning("hm".into()), Part::Reasoning("so".into())]),
        Msg::tool_result("1", "t", "x".repeat(40)),
        Msg::error("boom"),
    ];
    let j = get_session(&hist, "m", "p", true).unwrap();
    assert_eq!(
        render(&j),
        "{\"context_estimate\":17,\"messages\":[{\"content\":\"sum\",\"error\":\"\",\"reasoning\":\"\",\"role\":\"compaction\"},{\"content\":\"\",\"error\":\"\",\"reasoning\":\"hm\\nso\",\"role\":\"assistant\"},{\"content\":\"\",\"error\":\"boom\",\"reasoning\":\"\",\"role\":\"assistant\"}],\"model\":\"m\",\"provider\":\"p\",\"running\":true}"
    );
    assert_eq!(context_estimate(&hist), Some(17));
}

#[test]
fn compaction_summarises_the_old_and_keeps_the_new() {
    let mut hist = vec![Msg::text("system", "rules")];
    for i in 0..60 {
        hist.push(Msg::text("user", &format!("m{i}")));
    }
    assert_eq!(plan_compaction(&hist[..40].to_vec(), 1_000_000), None);
    let split = plan_compaction(&hist, 1_000_000).unwrap();
    assert_eq!(split, 21);
    let prompt = summary_prompt(&hist, split).plain_text_parts();
    assert!(prompt.ends_with("=== CONVERSATION ===\n[user]\nm0\n\n") || prompt.contains("\n[user]\nm0\n\n[user]\nm1\n\n"));
    assert!(prompt.ends_with("[user]\nm19\n\n") && !prompt.contains("rules"));
    match finish_compaction(&hist, split, "it went well", false, false) {
        Compaction::Done(out, report) => {
            assert_eq!(out.len(), 42);
            assert_eq!(out[0].role, "system");
            assert_eq!(out[1].compaction_summary().unwrap(), "it went well");
            assert_eq!(out[41].plain_text_parts(), "m59");
            assert_eq!(render(&report), "{\"compacted\":true,\"dropped\":19,\"messages\":42}");
        }
        other => panic!("{other:?}"),
    }
    assert!(matches!(finish_compaction(&hist, split, " ", false, false), Compaction::Failed(e) if e == "could not summarize"));
    assert!(matches!(finish_compaction(&hist, split, "s", false, true), Compaction::Failed(e) if e == "chat is running"));
    assert!(matches!(finish_compaction(&hist, split, "s", true, true), Compaction::Left(j)
        if render(&j) == "{\"compacted\":false,\"messages\":61,\"stopped\":true}"));
    assert_eq!(render(&not_needed(&hist)), "{\"compacted\":false,\"messages\":61}");
}

#[test]
fn drops_only_the_deleted_chats_snapshots() {
    let listing = "stash@{0} On main: manual-thing\nstash@{1} On main: e-snapshot-s1\r\nstash@{2} On main: e-snapshot-s12\nstash@{3} On main: e-snapshot-s1\n";
    assert_eq!(snapshot_refs(listing, "s1"), vec!["stash@{3}", "stash@{1}"]);
    assert_eq!(snapshot_refs(listing, "s12"), vec!["stash@{2}"]);
    assert!(snapshot_refs("", "s1").is_empty());
    assert_eq!(snapshot_message("s1"), "e-snapshot-s1");
}

#[test]
fn only_a_worktree_of_the_chat_is_deleted() {
    let mut meta = session("s1", "one");
    assert!(remove_task_worktree(&meta, "/root", true, true).unwrap().is_empty());
    meta.managed_worktree = true;
    meta.worktree_branch = "e/s1".into();
    let refused = remove_task_worktree(&meta, "/root", true, true).unwrap_err();
    assert_eq!(
        refused,
        "refusing to delete a worktree whose path does not match its task id (expected '/root/s1', got '/ws')"
    );
    meta.workspace = "/root/s1".into();
    assert!(matches!(&remove_task_worktree(&meta, "/root", true, true).unwrap()[..],
        [Step::RemoveWorktree(p), Step::DeleteBranch(b)] if p == "/root/s1" && b == "e/s1"));
    assert!(matches!(&remove_task_worktree(&meta, "/root", true, false).unwrap()[..],
        [Step::DeleteFolder(p)] if p == "/root/s1"));
    assert!(matches!(&remove_task_worktree(&meta, "/root", false, true).unwrap()[..],
        [Step::Prune, Step::DeleteBranch(_)]));
    assert!(remove_task_worktree(&meta, "/root", false, false).unwrap().is_empty());
}

#[test]
fn a_worktree_is_made_in_a_repository_only() {
    for (exists, scratch) in [(true, true), (false, false), (false, true)] {
        let (c, want) = Creation::begin("s-test", "/w/s-test", exists, scratch);
        assert!(matches!(want, Want::Done(None)) && c.stage == Stage::Over);
    }
    let (mut c, want) = Creation::begin("s-test", "/w/s-test", true, false);
    assert!(matches!(want, Want::TopLevel));
    assert!(matches!(c.step(Found::TopLevel { success: true, printed: b"\n".to_vec() }), Want::Done(None)));
    assert_eq!(printed_name(true, b"/repo\n"), Some("/repo".into()));
    assert_eq!(printed_name(true, b"\n"), None);
    assert_eq!(printed_name(false, b"/repo\n"), None);
    assert_eq!(not_deleted("/p", b""), "could not delete task worktree '/p'");
}

fn asked() -> Creation {
    let (mut c, _) = Creation::begin("s-test", "/w/s-test", true, false);
    assert!(matches!(c.step(Found::TopLevel { success: true, printed: b"/repo\n".to_vec() }), Want::MakeRoot));
    c
}

fn adding() -> Creation {
    let mut c = asked();
    assert!(matches!(c.step(Found::Root { root: "/w".into(), failure: None }), Want::Look));
    let want = c.step(Found::Present { exists: false });
    assert!(matches!(&want, Want::Add { repo, branch } if repo == "/repo" && branch == "e/s-test"));
    c
}

#[test]
fn managed_worktree_is_created_and_removed_with_its_branch() {
    let meta = session("s-test", "one");
    let mut c = adding();
    let made = match c.step(Found::Added { success: true, stderr: vec![] }) {
        Want::Done(made) => made,
        other => panic!("{other:?}"),
    };
    assert!(matches!(c.step(Found::Present { exists: true }), Want::Nothing), "it is over");
    match provision(&meta, Ok(made)) {
        Provision::Managed(m) => {
            assert_eq!((m.workspace.as_str(), m.worktree_base.as_str()), ("/w/s-test", "/repo"));
            assert!(m.managed_worktree && m.worktree_branch == "e/s-test" && m.id == "s-test");
            let steps = remove_task_worktree(&m, "/w", true, true).unwrap();
            assert!(matches!(&steps[..], [Step::RemoveWorktree(p), Step::DeleteBranch(b)] if p == "/w/s-test" && b == "e/s-test"));
        }
        other => panic!("{other:?}"),
    }
    assert!(matches!(provision(&meta, Ok(None)), Provision::Plain));
    assert!(matches!(provision(&meta, Err("no".into())), Provision::Discard(e) if e == "no"));
}

#[test]
fn making_a_worktree_fails_in_words() {
    let (mut c, _) = Creation::begin("s-test", "/w/s-test", true, false);
    let started = "could not start git while creating the task worktree: gone";
    assert!(matches!(c.step(Found::NoGit { error: "gone".into() }), Want::Fail(e) if e == started));
    assert!(matches!(adding().step(Found::NoGit { error: "gone".into() }), Want::Fail(e) if e == started));
    let root = Found::Root { root: "/w".into(), failure: Some("full".into()) };
    assert!(matches!(asked().step(root), Want::Fail(e) if e == "could not create the worktree folder '/w': full"));
    let mut c = asked();
    c.step(Found::Root { root: "/w".into(), failure: None });
    assert!(matches!(c.step(Found::Present { exists: true }), Want::Fail(e) if e == "task worktree already exists: /w/s-test"));
    let want = adding().step(Found::Added { success: false, stderr: b" fatal: no \n".to_vec() });
    assert!(matches!(want, Want::Clear(e) if e.starts_with("could not create") && e.ends_with("task: fatal: no")));
}

fn provider(id: &str, key: &str) -> ProviderItem {
    ProviderItem {
        id: id.into(),
        name: id.into(),
        base_url: String::new(),
        api_key: key.into(),
        models: vec![],
        context_window: None,
        enabled: true,
        disabled_models: vec![],
        model_meta: vec![],
    }
}

#[test]
fn saving_settings_keeps_what_is_blank_and_tidies_keys() {
    let mut cur = config();
    cur.base_url = "http://cur".into();
    cur.model = "m".into();
    cur.provider_id = "a".into();
    cur.providers = vec![provider("a", "envkey"), provider("gone", "x")];
    cur.disabled_plugins = vec!["bad".into()];
    let mut new = config();
    new.base_url = " ".into();
    new.api_key = "k".into();
    new.provider_id = "ignored".into();
    new.providers = vec![provider("a", "envkey"), provider("b", "")];
    let (saved, deeds) = save_config(new, &cur, Some(" envkey "));
    assert_eq!((saved.base_url.as_str(), saved.api_key.as_str(), saved.model.as_str()), ("http://cur", "k", "m"));
    assert_eq!((saved.provider_id.as_str(), saved.disabled_plugins.len()), ("a", 1));
    assert!(matches!(&deeds[..],
        [KeyDeed::Save { provider: b, key }, KeyDeed::Delete { provider: g }] if b == "b" && key.is_empty() && g == "gone"));
}

fn serving(id: &str, models: &[&str]) -> ProviderItem {
    let mut p = provider(id, &format!("key-{id}"));
    p.base_url = format!("http://{id}");
    p.models = models.iter().map(|m| m.to_string()).collect();
    p
}

#[test]
fn a_chat_follows_its_model_to_the_provider() {
    let mut c = config();
    c.providers = vec![serving("a", &["x", "y"]), serving("b", &["y", "z"])];
    c.providers[1].context_window = Some(7);
    assert_eq!(c.resolve_provider_id("y", "b"), "b");
    assert_eq!(c.resolve_provider_id("y", "gone"), "a");
    assert_eq!(c.resolve_provider_id("x", "b"), "a", "one that does not have the model is no use");
    assert_eq!(c.resolve_provider_id("none", "b"), "");
    let on = run_config(c.clone(), "", "z", "");
    assert_eq!((on.base_url.as_str(), on.api_key.as_str(), on.provider_id.as_str()), ("http://b", "key-b", "b"));
    assert_eq!((on.model.as_str(), on.models.len()), ("z", 2));
    let kept = c.clone().use_model("none", "b");
    assert_eq!((kept.provider_id.as_str(), kept.model.as_str()), ("b", "none"), "a chat keeps its provider");
    let nobody = c.clone().use_model("none", "gone");
    assert_eq!((nobody.base_url.clone(), nobody.model.as_str()), (c.base_url.clone(), "none"));
    assert_eq!((c.context_window_for("z", ""), c.context_window_for("x", "")), (7, 1_000_000));
    c.provider_id = "b".into();
    c.api_key = "from-the-environment".into();
    assert_eq!(c.clone().use_model("z", "").api_key, "from-the-environment");
    c.model = "x".into();
    assert_eq!(c.clone().normalize().base_url, "http://a");
    let offers: Vec<String> =
        c.model_catalog().into_iter().map(|m| format!("{} {} {}", m.model, m.provider, m.provider_name)).collect();
    assert_eq!(offers, vec!["x a a", "y a a", "y b b", "z b b"]);
    c.providers[0].enabled = false;
    c.providers[1].disabled_models = vec!["z".into()];
    let left = c.model_catalog();
    assert_eq!((left.len(), left[0].model.as_str(), left[0].provider.as_str()), (1, "y", "b"));
    assert_eq!((c.resolve_provider_id("x", ""), c.resolve_provider_id("z", "b")), ("".into(), "".into()));
}

#[test]
fn keys_are_kept_apart_from_the_settings() {
    let mut c = config();
    c.api_key = "key-b".into();
    c.provider_id = "b".into();
    c.providers = vec![serving("a", &["x"]), serving("b", &["y"]), provider("c", "")];
    let stored = c.save();
    assert!(stored.api_key.is_empty() && stored.providers.iter().all(|p| p.api_key.is_empty()));
    assert_eq!((stored.providers[1].base_url.as_str(), stored.provider_id.as_str()), ("http://b", "b"));
    assert!(migrate_keys(&stored).is_empty());
    let plain = migrate_keys(&c);
    assert!(matches!(&plain[..], [KeyDeed::Save { provider: a, key: k }, KeyDeed::Save { provider: b, key: l }]
        if a == "a" && k == "key-a" && b == "b" && l == "key-b"));
    let back = restore_keys(stored, vec![Some("key-a".into()), Some("key-b".into()), None]);
    assert_eq!(back.api_key, "key-b", "the connection has the key of its provider");
    assert_eq!((back.providers[0].api_key.as_str(), back.providers[2].api_key.as_str()), ("key-a", ""));
    let kept = restore_keys(c, vec![Some("other".into()), None, None]);
    assert_eq!(kept.providers[0].api_key, "key-a", "a key that is there is not replaced");
    assert_eq!(kept.key_of("b").as_deref(), Some("key-b"));
    assert_eq!(kept.key_of("none"), None);
}

#[test]
fn a_refresh_keeps_what_was_set_by_hand() {
    let listing = parse(r#"{"data":[{"id":"new","context_window":9},{"id":"both"}]}"#).unwrap();
    let listed = listed_models(&listing).unwrap();
    let mut p = serving("a", &["mine", "both"]);
    p.context_window = Some(5);
    let p = refresh_models(p, &listed);
    assert_eq!(p.models, vec!["new", "both", "mine"]);
    assert_eq!((p.context_window, p.api_key.as_str()), (Some(5), "key-a"));
    assert_eq!(
        listed_models(&parse("{}").unwrap()).err().as_deref(),
        Some("the provider listed no models")
    );
}

#[test]
fn plugins_are_switched_on_and_off() {
    let off = set_plugin_enabled(vec!["b".into(), "c".into()], "a", false);
    assert_eq!(off, vec!["a", "b", "c"]);
    let off = set_plugin_enabled(off, "b", true);
    assert_eq!(off, vec!["a", "c"]);
    assert_eq!(set_plugin_enabled(off.clone(), "a", false), vec!["a", "c"]);
    let info = |n: &str| read_info(n, "/p", "global", ManifestFile::Unreadable("x".into()), true);
    let marked = mark_enabled(vec![info("a"), info("b")], &off);
    assert!(!marked[0].enabled && marked[1].enabled);
}

#[test]
fn a_message_goes_where_it_was_typed() {
    assert_eq!(prepare_message(Some(" s1 "), "s2", "\u{feff} hi "), Ok(("s1".into(), "hi".into())));
    assert_eq!(prepare_message(None, "s2", "hi"), Ok(("s2".into(), "hi".into())));
    assert_eq!(prepare_message(Some(" "), "", "hi"), Err("no chat selected".into()));
    assert_eq!(prepare_message(None, "s2", " \u{feff} "), Ok(("s2".into(), "\u{feff}".into())));
    assert_eq!(prepare_message(None, "s2", "\u{feff} "), Err("empty message".into()));
    assert_eq!(target(Some(""), "cur"), "cur");
    let c = run_config(config(), "/own", "m", "");
    assert_eq!((c.workspace.as_str(), c.model.as_str()), ("/own", "m"));
    assert_eq!(run_config(config(), "", "", "").workspace, "/cwd");
    assert_eq!((state_after(true), state_after(false)), ("error".into(), "idle".into()));
}

#[test]
fn attachments_are_read_in_the_chats_folder() {
    assert_eq!(attachment_path("/a", "/ws"), "/a");
    assert_eq!(attachment_path("a", "/ws"), "/ws/a");
    assert_eq!(render(&attachment("a", b"text")), "{\"content\":\"text\",\"path\":\"a\"}");
    let big = vec![b'x'; MAX_ATTACHMENT + 1];
    let content = attachment("a", &big).get_str("content").unwrap();
    assert_eq!(content.len(), MAX_ATTACHMENT + "\n… (truncated)".len());
}

#[test]
fn a_pane_shows_the_chats_own_folder_only() {
    assert_eq!(pane_root(" /ws ", true), Ok("/ws".into()));
    assert!(pane_root("", true).unwrap_err().contains("no project folder"));
    assert!(pane_root("ws", true).unwrap_err().contains("relative path (ws)"));
    assert_eq!(pane_root("/ws", false), Err("project folder does not exist: /ws".into()));
    assert!(path_is_dir("/ws", true) && !path_is_dir("ws", true) && !path_is_dir("", true) && !path_is_dir("/ws", false));
}

#[test]
fn commands_are_read_from_a_pipe() {
    assert!(read_command("nonsense").is_none());
    assert!(matches!(read_command("{\"type\":\"stop\",\"id\":1}"), Some((Json::Unsigned(1), Command::Stop))));
    assert!(matches!(read_command("{\"type\":\"reset\"}"), Some((Json::Null, Command::Reset))));
    assert!(matches!(read_command("{\"type\":\"dance\"}"), Some((_, Command::Unknown))));
    assert!(matches!(read_command("{}"), Some((_, Command::Unknown))));
    match read_command("{\"type\":\"send\",\"text\":\"hi\",\"images\":[\"data:x\",1]}") {
        Some((_, Command::Send { text, images })) => {
            assert_eq!((text.as_str(), images), ("hi", vec!["data:x".to_string()]));
        }
        other => panic!("{other:?}"),
    }
    assert_eq!(
        render(&response(&Json::Unsigned(1), false, Some("unknown command"))),
        "{\"error\":\"unknown command\",\"id\":1,\"ok\":false,\"type\":\"response\"}"
    );
    assert_eq!(
        render(&event("token", Json::Null)),
        "{\"event\":\"token\",\"payload\":null,\"type\":\"event\"}"
    );
}

fn meta(id: &str, window: Option<u64>, effort: Option<&str>) -> ModelMeta {
    ModelMeta {
        id: id.into(),
        context_window: window,
        reasoning: None,
        reasoning_efforts: vec![],
        reasoning_effort: effort.map(String::from),
    }
}

#[test]
fn a_model_has_its_own_window_and_level() {
    let mut c = config();
    c.providers = vec![serving("a", &["x", "y"]), serving("b", &["z"])];
    c.providers[0].context_window = Some(100);
    c.providers[0].model_meta = vec![meta("x", Some(7), Some(" high ")), meta("y", None, None)];
    let on = |m: &str| c.clone().use_model(m, "");
    assert_eq!((on("x").active_context_window(), on("y").active_context_window()), (7, 100));
    assert_eq!(on("z").active_context_window(), 1_000_000, "nothing is set for it");
    assert_eq!(on("x").active_reasoning_effort().as_deref(), Some(" high "));
    assert_eq!((on("y").active_reasoning_effort(), on("z").active_reasoning_effort()), (None, None));
    assert_eq!(Agent::new(on("x")).provider.reasoning_effort.as_deref(), Some("high"), "it is sent");
    assert_eq!(Agent::new(on("y")).provider.reasoning_effort, None);
    let mut twice = c.clone();
    twice.providers[1].base_url = "http://a".into();
    twice.providers[1].model_meta = vec![meta("z", Some(9), None)];
    assert_eq!(twice.use_model("z", "").active_context_window(), 9, "the selected one of two at one address");
}

#[test]
fn a_refresh_records_what_is_advertised_and_overwrites_nothing() {
    let listing = parse(
        r#"{"data":[
            {"id":"x","context_window":50},
            {"id":"y","context_window":60,"reasoning_efforts":["low","high"]},
            {"id":"bare"}
        ]}"#,
    )
    .unwrap();
    let listed = listed_models(&listing).unwrap();
    let mut p = serving("a", &["x"]);
    p.model_meta = vec![meta("x", Some(7), Some("high")), meta("gone", Some(1), None)];
    let p = refresh_models(p, &listed);
    let windows: Vec<_> = p.model_meta.iter().map(|m| (m.id.as_str(), m.context_window)).collect();
    assert_eq!(windows, vec![("x", Some(7)), ("gone", Some(1)), ("y", Some(60))]);
    assert_eq!(p.model_meta[0].reasoning_effort.as_deref(), Some("high"));
    assert_eq!(p.model_meta[2].reasoning_efforts, vec!["low", "high"]);
    assert_eq!(p.model_meta[2].reasoning_effort, None, "a level is the user's to choose");
}
