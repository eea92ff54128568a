use e_lib::clock::{nanos_from, subsecond_nanos};
use e_lib::engine::approval::{self, Approvals, Asked, Tick};
use e_lib::engine::browse::{
    contained, entry, list, read_text, rel_of, resolve, Entry, MAX_ENTRIES, MAX_PREVIEW,
};
use e_lib::engine::credentials::{account, delete, load, save, saved, Deed, Kept};
use e_lib::engine::identity::{agent, anonymous_session, install_id, session_id, Identity};
use e_lib::engine::mcp::{
    call_outcome, call_params, command_of, config_files, exited, initialize_params, initialized_line, list_tools,
    no_answer, read_config, read_line, request_line, start_dir, started, starting, status, McpTool,
    McpToolInfo, Started, PREFIX,
};
use e_lib::engine::plugins::{
    self, below_workspace, below_workspace_with, discover, loadable, plugin_dirs, read_info, set_veto_active, veto, veto_active,
    veto_outcome, veto_resolve, Desk, ManifestFile, PluginManifest,
};
use e_lib::engine::pty::{
    alive, any_open, clamp, default_shell, enter, kill, kill_session, remove, resize, shutdown,
    spawn, Decoder, Terminals, MAX_DIM, MIN_DIM,
};
use e_lib::engine::skills::{find_displayed, frontmatter, list as list_skills, FoundSkill, SkillStore};
use e_lib::engine::tools::slug;
use e_lib::json::{parse, render, Json};

// ---- identity ----

fn who() -> Identity {
    Identity::new("0.1.0", "linux", "x86_64", None, 0x18f, 0x2a)
}

#[test]
fn the_user_agent_names_the_product_platform_and_version() {
    let id = who();
    let ua = agent(&id);
    assert!(ua.starts_with("e/"), "{ua}");
    assert!(ua.contains("0.1.0"), "{ua}");
    assert!(ua.contains("linux"), "{ua}");
    assert!(ua.contains("x86_64"), "{ua}");
}

#[test]
fn a_known_chat_id_is_sent_verbatim_and_trimmed() {
    assert_eq!(session_id(&who(), " s123 "), "s123");
}

#[test]
fn a_missing_chat_id_falls_back_to_the_install_id() {
    let id = who();
    assert_eq!(&session_id(&id, ""), anonymous_session(&id));
    assert_eq!(&session_id(&id, "   "), anonymous_session(&id));
}

#[test]
fn the_install_id_is_nonempty_and_stable_within_the_process() {
    let id = who();
    let first = anonymous_session(&id).clone();
    assert!(!first.is_empty());
    assert_eq!(anonymous_session(&id), &first, "the id must not wander mid-session");
}

#[test]
fn an_install_id_is_kept_or_minted() {
    assert_eq!(install_id(Some(" e-1 \n"), 0, 0), ("e-1".to_string(), false));
    assert_eq!(install_id(Some(" \n"), 0x18f, 0x2a), ("e-18f-2a".to_string(), true));
    assert_eq!(install_id(None, 1, 2), ("e-1-2".to_string(), true));
}

// ---- terminals ----

#[test]
fn a_size_is_clamped_into_what_the_os_will_accept() {
    assert_eq!(clamp(0), MIN_DIM);
    assert_eq!(clamp(9000), MAX_DIM);
    assert_eq!(clamp(80), 80);
}

#[test]
fn a_shell_is_always_named() {
    for (chosen, windows, login) in [
        (None, false, None),
        (Some("  ".to_string()), true, None),
        (Some(" fish ".to_string()), false, None),
        (None, false, Some("/bin/zsh".to_string())),
    ] {
        let (prog, _) = default_shell(chosen, windows, login);
        assert!(!prog.trim().is_empty());
    }
    assert_eq!(default_shell(Some(" fish ".into()), true, None), ("fish".into(), vec![]));
    assert_eq!(default_shell(None, false, Some(" ".into())), ("/bin/sh".into(), vec!["-i".into()]));
}

#[test]
fn talking_to_a_terminal_that_is_not_there_is_an_error() {
    let t = Terminals::new();
    assert!(e_lib::engine::pty::write(&t, "chat", "no-such-terminal").is_err());
    assert!(resize(&t, "chat", "no-such-terminal", 80, 24).is_err());
    assert!(!alive(&t, "chat", "no-such-terminal"));
}

#[test]
fn killing_a_terminal_that_already_exited_is_not_an_error() {
    let t = Terminals::new();
    assert!(kill(&t, "chat", "no-such-terminal").is_ok());
}

#[test]
fn a_terminal_belonging_to_another_chat_is_refused() {
    let mut t = Terminals::new();
    enter(&mut t, "chat-a", "t1");
    assert!(e_lib::engine::pty::write(&t, "chat-b", "t1").is_err(), "another chat could type into it");
    assert!(resize(&t, "chat-b", "t1", 100, 30).is_err(), "another chat could resize it");
    assert!(kill(&t, "chat-b", "t1").is_err(), "another chat could kill it");
    assert!(!alive(&t, "chat-b", "t1"));
    assert!(alive(&t, "chat-a", "t1"));
    assert_eq!(resize(&t, "chat-a", "t1", 100, 0), Ok((100, 1)));
    assert_eq!(kill(&t, "chat-a", "t1"), Ok(true));
}

#[test]
fn terminals_are_opened_once_and_limited() {
    let mut t = Terminals::new();
    assert_eq!(spawn(&t, "  "), Err("terminal id is empty".into()));
    assert_eq!(spawn(&t, " t1 "), Ok("t1".into()));
    enter(&mut t, "a", "t1");
    assert_eq!(spawn(&t, "t1"), Err("terminal 't1' is already running".into()));
    for i in 2..25 {
        enter(&mut t, "b", &format!("t{i}"));
    }
    assert_eq!(spawn(&t, "t25"), Err("too many terminals open (24); close one first".into()));
    assert_eq!(kill_session(&t, "a"), vec!["t1"]);
    assert!(any_open(&t, &vec!["t1".into()]));
    remove(&mut t, "t1");
    assert!(!any_open(&t, &vec!["t1".into()]));
    assert_eq!(shutdown(&mut t).len(), 23);
    assert!(t.open.is_empty());
}

#[test]
fn output_is_decoded_across_reads() {
    let mut d = Decoder::new();
    assert_eq!(d.feed(&[b'h', 0xc3]), "h");
    assert_eq!(d.feed(&[0xa9, b'l']), "él");
    assert_eq!(d.feed(&[b'a', 0xff, 0xc3]), "a\u{fffd}\u{fffd}");
    assert_eq!(d.feed(b"ok"), "ok");
}

// ---- files ----

fn item(name: &str, dir: bool) -> Entry {
    Entry { name: name.into(), path: name.into(), dir, size: 0, modified: 0, symlink: false }
}

#[test]
fn a_listing_puts_folders_first_and_paths_are_relative() {
    let l = list(
        "",
        vec![item("a.txt", false), item("src", true), item("B.txt", false), item("Docs", true)],
        false,
    );
    let names: Vec<&str> = l.entries.iter().map(|e| e.name.as_str()).collect();
    assert_eq!(names, vec!["Docs", "src", "a.txt", "B.txt"]);
    assert!(!l.truncated && list("", vec![], true).truncated);
    assert_eq!(rel_of("src\\main.rs"), "src/main.rs");
}

#[test]
fn nothing_outside_the_root_can_be_reached() {
    assert!(resolve("/root", "..").is_err());
    assert!(resolve("/root", "inside/../..").is_err());
    assert!(resolve("/root", "../../etc/passwd").is_err());
    assert!(contained("link", false).is_err());
    assert!(resolve("", "inside").is_err());
    assert_eq!(resolve("/root", "inside/ok.txt"), Ok(Some("inside/ok.txt".into())));
    assert_eq!(resolve("/root", " / "), Ok(None));
    assert_eq!(resolve("/root", "."), Ok(None));
}

#[test]
fn a_windows_style_separator_resolves_the_same_way() {
    assert_eq!(resolve("/root", "a\\b\\c.txt"), resolve("/root", "a/b/c.txt"));
    assert!(resolve("/root", "a\\..\\..\\b").is_err());
}

#[test]
fn a_binary_file_is_flagged_rather_than_rendered() {
    let f = read_text("blob.bin", &[0x00, 0x01, 0x02, 0xff], 4);
    assert!(f.binary);
    assert!(f.text.is_empty());
}

#[test]
fn a_large_file_is_truncated_and_says_so() {
    let big = "x".repeat(MAX_PREVIEW);
    let f = read_text("big.txt", big.as_bytes(), (MAX_PREVIEW + 1024) as u64);
    assert!(f.truncated);
    assert_eq!(f.text.len(), MAX_PREVIEW);
    assert_eq!(f.size, (MAX_PREVIEW + 1024) as u64);
}

// ---- servers ----

#[test]
fn a_project_config_overrides_a_disabled_flag_and_carries_env() {
    let text = r#"{ "servers": {
           "files": { "command": "npx", "args": ["-y", "server-filesystem", "."],
                      "env": { "TOKEN": "abc" }, "cwd": "/tmp" },
           "off":   { "command": "noop", "disabled": true },
           "off2":  { "command": "noop", "enabled": false }
         } }"#;
    let global = r#"{ "servers": { "files": { "command": "old", "disabled": true } } }"#;
    let confs = read_config(&vec![
        ("global".to_string(), global.to_string()),
        ("global".to_string(), "{ oops".to_string()),
        ("project".to_string(), text.to_string()),
    ]);
    let files = confs.iter().find(|c| c.name == "files").expect("files");
    assert_eq!(files.args, vec!["-y", "server-filesystem", "."]);
    assert_eq!(files.env, vec![("TOKEN".to_string(), "abc".to_string())]);
    assert_eq!(files.cwd, "/tmp");
    assert_eq!(files.scope, "project");
    assert!(!files.disabled);
    assert!(confs.iter().find(|c| c.name == "off").unwrap().disabled);
    assert!(confs.iter().find(|c| c.name == "off2").unwrap().disabled);
    assert_eq!(start_dir(files, Some("/ws")), Some("/tmp".into()));
    let off = confs.iter().find(|c| c.name == "off").unwrap();
    assert_eq!(start_dir(off, Some(" /ws ")), Some("/ws".into()));
    assert_eq!(start_dir(off, Some("ws")), None);
    assert_eq!(command_of(off), Ok("noop".into()));
}

#[test]
fn qualified_names_use_the_alphabet_providers_accept() {
    let name = format!("{PREFIX}{}_{}", slug("file system"), slug("read/file"));
    assert_eq!(name, "mcp_file_system_read_file");
    assert!(name.chars().all(|c| c.is_ascii_alphanumeric() || c == '_' || c == '-'));
    let tool = McpTool::new(
        "file system",
        McpToolInfo { name: "read/file".into(), description: "d".into(), parameters: Json::Null },
    );
    assert_eq!(tool.qualified, name);
    assert_eq!(tool.definition().name, name);
}

#[test]
fn a_server_is_asked_and_heard() {
    let line = request_line(2, "tools/call", call_params("echo", parse("{\"text\":\"hi\"}").unwrap()));
    assert_eq!(
        line,
        "{\"id\":2,\"jsonrpc\":\"2.0\",\"method\":\"tools/call\",\"params\":{\"arguments\":{\"text\":\"hi\"},\"name\":\"echo\"}}\n"
    );
    assert_eq!(initialized_line(), "{\"jsonrpc\":\"2.0\",\"method\":\"notifications/initialized\"}\n");
    assert!(render(&initialize_params("0.1.0")).contains("\"protocolVersion\":\"2024-11-05\""));
    assert!(read_line("", 2).is_none());
    assert!(read_line("log", 2).is_none());
    assert!(read_line("{\"method\":\"log\"}", 2).is_none());
    assert!(read_line("{\"id\":3,\"result\":1}", 2).is_none());
    assert_eq!(read_line(" {\"id\":2,\"result\":1} ", 2).unwrap().unwrap(), Json::Unsigned(1));
    assert_eq!(read_line("{\"id\":2}", 2).unwrap().unwrap(), Json::Null);
    assert_eq!(read_line("{\"id\":2,\"error\":{\"message\":\"no\"}}", 2).unwrap().unwrap_err(), "no");
    assert_eq!(read_line("{\"id\":2,\"error\":{}}", 2).unwrap().unwrap_err(), "mcp error");
    assert_eq!(no_answer("s", "m", 60), "'s' did not answer m within 60s");
    assert_eq!(exited("s"), "'s' exited");
    let tools = list_tools(&parse(r#"{"tools":[{"name":"echo","description":"d"},{"description":"x"}]}"#).unwrap());
    assert_eq!(tools.len(), 1);
    assert_eq!(render(&tools[0].parameters), "{\"type\":\"object\"}");
    let ok = parse(r#"{"content":[{"type":"text","text":"a"},{"type":"image"},{"type":"text","text":"b"}]}"#).unwrap();
    assert_eq!(call_outcome(&ok), Ok("ab".into()));
    assert_eq!(call_outcome(&parse("{\"isError\":true}").unwrap()), Err("(no text content)".into()));
}

#[test]
fn a_server_that_cannot_start_is_reported_not_hidden() {
    let confs = read_config(&vec![(
        "project".to_string(),
        r#"{"servers":{"bad":{"command":"nope","args":["x"]},"off":{"command":"c","disabled":true}}}"#.to_string(),
    )]);
    let mut all = starting(&confs);
    assert_eq!((all[0].command.as_str(), all[0].state.as_str()), ("nope x", "starting"));
    assert_eq!(all[1].state, "disabled");
    started(&mut all, "bad", Started::Failed("cannot start 'nope'".into()));
    started(&mut all, "gone", Started::Ready(vec![]));
    let now = status(&all);
    assert_eq!((now[0].state.as_str(), now[0].error.as_str()), ("error", "cannot start 'nope'"));
    started(&mut all, "bad", Started::NoTools("quiet".into()));
    assert_eq!(all[0].error, "tools/list failed: quiet");
    started(&mut all, "bad", Started::Ready(vec!["mcp_bad_x".into()]));
    assert_eq!((all[0].state.as_str(), all[0].tools.len(), all[0].error.as_str()), ("ready", 1, ""));
}

// ---- plugins ----

fn manifest(name: &str, caps: &[&str], entry: &str) -> ManifestFile {
    ManifestFile::Read(PluginManifest {
        name: name.into(),
        version: "0.2.0".into(),
        description: String::new(),
        capabilities: caps.iter().map(|c| c.to_string()).collect(),
        entry: entry.into(),
    })
}

#[test]
fn a_plugin_is_identified_by_its_folder_not_its_manifest_name() {
    let info = read_info("git-guard", "/p/git-guard", "project", manifest("Git Guard", &[], ""), true);
    let found = discover(vec![info]);
    let p = found.iter().find(|p| p.name == "git-guard").expect("discovered");
    assert_eq!(p.display, "Git Guard");
    assert_eq!(p.scope, "project");
    assert_eq!(p.entry, "index.js");
    assert!(p.error.is_empty(), "{}", p.error);
    assert!(loadable(p).is_ok());
}

#[test]
fn an_unknown_capability_is_an_error_not_a_silent_grant() {
    let p = read_info("typo", "/p/typo", "project", manifest("", &["net"], ""), true);
    assert!(p.error.contains("unknown capabilit"), "{}", p.error);
    assert!(loadable(&p).is_err());
    let p = read_info("two", "/p", "project", manifest("", &["a", " tools ", "b"], ""), true);
    assert_eq!(
        p.error,
        "unknown capabilities: a, b (known: tools, events, commands, ui, network, session-read, views, fs, pty)"
    );
    let p = read_info("fine", "/p", "project", manifest("", &["tools", "views", "pty"], ""), true);
    assert!(p.error.is_empty());
}

#[test]
fn a_broken_plugin_is_reported_rather_than_hidden() {
    let found = discover(vec![
        read_info("half-written", "/p", "global", ManifestFile::Invalid("oops".into()), true),
        read_info("unreadable", "/p", "global", ManifestFile::Unreadable("gone".into()), true),
        read_info("no-entry", "/p", "global", manifest("", &[], "main.js"), false),
        read_info(".git", "/p", "global", manifest("", &[], ""), true),
    ]);
    assert_eq!(found.iter().map(|p| p.name.as_str()).collect::<Vec<_>>(), vec!["half-written", "no-entry", "unreadable"]);
    assert!(found[0].error.contains("not valid JSON"), "{}", found[0].error);
    assert_eq!(found[1].error, "entry file 'main.js' is missing");
    assert_eq!(found[2].error, "cannot read plugin.json: gone");
}

#[test]
fn a_project_plugin_shadows_a_global_one() {
    let found = discover(vec![
        read_info("x", "/home/x", "global", manifest("old", &[], ""), true),
        read_info("x", "/ws/x", "project", manifest("new", &[], ""), true),
    ]);
    assert_eq!(found.len(), 1);
    assert_eq!((found[0].display.as_str(), found[0].scope.as_str()), ("new", "project"));
}

#[test]
fn a_relative_workspace_contributes_nothing() {
    let dirs = plugin_dirs(Some("some/relative/dir"), Some("/home/x"));
    assert!(dirs.iter().all(|(scope, _)| scope == "global"));
    let dirs = plugin_dirs(Some("/ws"), Some("/home/x"));
    assert_eq!(dirs[0].1, "/home/x/.e/plugins");
    assert_eq!(dirs[1], ("project".to_string(), "/ws/.e/plugins".to_string()));
}

#[test]
fn the_veto_hook_allows_the_call_when_nothing_can_answer() {
    let mut desk = Desk::new(false);
    set_veto_active(&mut desk, false);
    assert!(veto(&mut desk, "chat", "shell", &parse("{}").unwrap(), 1).is_none());

    set_veto_active(&mut desk, true);
    assert!(veto_active(&desk));
    // There is no host, so this is the headless case.
    assert!(veto(&mut desk, "chat", "shell", &parse("{}").unwrap(), 1).is_none());
    set_veto_active(&mut desk, false);
}

#[test]
fn guards_are_asked_and_heard_once() {
    let mut desk = Desk::new(true);
    set_veto_active(&mut desk, true);
    let (id, q) = veto(&mut desk, "chat", "powershell", &parse("{\"a\":1}").unwrap(), 7).unwrap();
    assert_eq!(id, "veto7_0");
    assert_eq!(render(&q), "{\"arguments\":\"{\\\"a\\\":1}\",\"id\":\"veto7_0\",\"sid\":\"chat\",\"tool\":\"powershell\"}");
    assert_eq!(veto_resolve(&mut desk, &id, Some("no".into())), Some(Some("no".into())));
    assert_eq!(veto_resolve(&mut desk, &id, Some("no".into())), None);
    let (id, _) = veto(&mut desk, "chat", "x", &Json::Null, 7).unwrap();
    assert_eq!(veto_resolve(&mut desk, &id, Some("  ".into())), Some(None), "a blank reason is none");
    let (id, _) = veto(&mut desk, "chat", "x", &Json::Null, 7).unwrap();
    assert_eq!(veto_outcome(&mut desk, &id, None), None, "no answer allows the call");
    assert!(desk.vetoes.is_empty());
}

#[test]
fn plugin_tools_are_asked_for_and_answered() {
    let mut headless = Desk::new(false);
    assert!(plugins::request(&mut headless, "t", &Json::Null, 1).is_err());
    let mut desk = Desk::new(true);
    let (id, q) = plugins::request(&mut desk, "t", &Json::Null, 1).unwrap();
    assert_eq!(render(&q), "{\"arguments\":\"null\",\"name\":\"t\",\"sid\":\"pt1_0\"}");
    assert_eq!(plugins::resolve(&mut desk, &id, true, "out".into()), Some(Ok("out".into())));
    assert_eq!(plugins::resolve(&mut desk, &id, true, "out".into()), None);
    let (id, _) = plugins::request(&mut desk, "t", &Json::Null, 1).unwrap();
    assert_eq!(plugins::give_up(&mut desk, &id, "t"), "plugin tool 't' timed out after 180s");
    assert_eq!(plugins::resolve(&mut desk, &id, false, "late".into()), None);
}

// ---- approval ----

#[test]
fn a_person_is_asked_before_a_risky_tool() {
    let mut headless = Approvals::new(false);
    assert!(matches!(approval::request(&mut headless, "s", "t", "p", true, 1), Asked::Settled(true)));
    let mut desk = Approvals::new(true);
    assert!(matches!(approval::request(&mut desk, "s", "t", "p", true, 1), Asked::Settled(false)));
    let id = match approval::request(&mut desk, "s", "t", "p", false, 5) {
        Asked::Prompt(id, prompt) => {
            assert_eq!(render(&prompt), "{\"id\":\"apr_5_0\",\"preview\":\"p\",\"sid\":\"s\",\"tool\":\"t\"}");
            id
        }
        Asked::Settled(_) => panic!("a person has to be asked"),
    };
    assert_eq!(approval::settle(Tick::Quiet { cancelled: false, expired: false }), None);
    assert_eq!(approval::settle(Tick::Quiet { cancelled: true, expired: false }), Some(false));
    assert_eq!(approval::settle(Tick::Gone), Some(false));
    assert_eq!(approval::settle(Tick::Answer(true)), Some(true));
    assert_eq!(approval::resolve(&mut desk, &id, true), Some(true));
    assert_eq!(approval::resolve(&mut desk, &id, true), None);
    assert!(approval::close(&mut desk, &id, "s", true).is_none());
    assert_eq!(render(&approval::close(&mut desk, &id, "s", false).unwrap()), "{\"id\":\"apr_5_0\",\"sid\":\"s\"}");
}

// ---- keys ----

#[test]
fn keys_are_read_saved_and_deleted() {
    assert_eq!(account("openai"), "provider:openai");
    assert_eq!(load("p", Kept::Value("k".into())), Ok(Some("k".into())));
    assert_eq!(load("p", Kept::Missing), Ok(None));
    assert_eq!(
        load("p", Kept::Failed("locked".into())),
        Err("could not read the API key for provider 'p' from the OS credential store: locked".into())
    );
    assert_eq!((save(""), save("k"), delete()), (Deed::Delete, Deed::Store, Deed::Delete));
    assert_eq!(saved("p", Deed::Delete, Kept::Missing), Ok(()));
    assert_eq!(
        saved("p", Deed::Store, Kept::Failed("full".into())),
        Err("could not save the API key for provider 'p' in the OS credential store: full".into())
    );
    assert!(saved("p", Deed::Delete, Kept::Failed("x".into())).unwrap_err().starts_with("could not delete"));
}

// ---- skills ----

#[test]
fn a_project_skill_is_found_with_its_frontmatter() {
    let body = "---\nname: Release checklist\ndescription: How we ship\n---\n\nStep one.\n";
    let found = vec![FoundSkill {
        name: "release".into(),
        path: "/ws/.e/skills/release/SKILL.md".into(),
        scope: "project".into(),
        text: Some(body.into()),
    }];
    let skills = list_skills(&found);
    let s = skills.iter().find(|s| s.name == "release").expect("listed");
    assert_eq!(s.display, "Release checklist");
    assert_eq!(s.description, "How we ship");
    assert_eq!(s.scope, "project");
    assert_eq!(find_displayed(&skills, "Release checklist"), Some("/ws/.e/skills/release/SKILL.md".into()));
    assert_eq!(find_displayed(&skills, "Release"), None);
}

#[test]
fn the_first_skill_found_counts() {
    let skill = |name: &str, scope: &str, text: Option<&str>| FoundSkill {
        name: name.into(),
        path: String::new(),
        scope: scope.into(),
        text: text.map(|t| t.to_string()),
    };
    let skills = list_skills(&vec![
        skill("b", "project", Some("no front matter")),
        skill("c", "project", None),
        skill("a", "global", Some("---\r\nname: \"\"\r\n---\r\n")),
        skill("b", "global", Some("x")),
        skill("c", "global", Some("x")),
    ]);
    assert_eq!(skills.iter().map(|s| s.name.as_str()).collect::<Vec<_>>(), vec!["a", "b"]);
    assert_eq!((skills[0].display.as_str(), skills[1].scope.as_str()), ("a", "project"));
}

#[test]
fn front_matter_is_read_line_by_line() {
    assert_eq!(frontmatter("---\nname: 'x y'\n---", "name"), Some("x y".into()));
    assert_eq!(frontmatter("---\nname: x", "name"), None);
    assert_eq!(frontmatter("name: x\n---", "name"), None);
    assert_eq!(frontmatter("---\nother: x\n---\nname: y", "name"), None);
}

#[test]
fn a_relative_workspace_contributes_no_skills() {
    let store = SkillStore::for_workspace("some/relative/dir", Some("/home/x"));
    assert!(store.dirs.iter().all(|(scope, _)| scope == "global"));
    assert_eq!(SkillStore::new(Some("/home/x")).dirs.len(), 2);
    let store = SkillStore::for_workspace("/ws", Some("/home/x"));
    assert_eq!(store.dirs[1].1, "/home/x/.agents/skills");
    assert_eq!(store.dirs[2].1, "/ws/.e/skills");
}

#[test]
fn a_project_folder_counts_only_where_it_is_absolute() {
    let below = |ws: Option<&str>, absolute: bool| below_workspace_with(ws, absolute, "/ws/.e/plugins");
    assert_eq!(below(Some(" /ws "), true).as_deref(), Some("/ws/.e/plugins"));
    assert_eq!(below(Some("ws"), false), None, "a relative one depends on where the program was started");
    assert_eq!(below(Some("  "), true), None);
    assert_eq!(below(None, true), None);
    assert_eq!(below_workspace(Some(" /ws "), ".e/plugins").as_deref(), Some("/ws/.e/plugins"));
    assert_eq!(below_workspace(Some("ws"), ".e/plugins"), None);
}

#[test]
fn the_clock_is_read_below_the_second() {
    assert_eq!(nanos_from(Ok(std::time::Duration::new(5, 7))), 7);
    let early = std::time::UNIX_EPOCH.duration_since(std::time::UNIX_EPOCH + std::time::Duration::new(1, 9));
    assert!(early.is_err());
    assert_eq!(nanos_from(early), 0, "before the epoch there is nothing to read");
    assert!(subsecond_nanos() < 1_000_000_000);
}

#[test]
fn an_answer_counts_once_and_for_its_own_question() {
    let mut desk = Desk::new(true);
    set_veto_active(&mut desk, true);
    let (a, _) = veto(&mut desk, "s", "t", &Json::Null, 5).unwrap();
    let (b, _) = veto(&mut desk, "s", "t", &Json::Null, 5).unwrap();
    assert_ne!(a, b, "two questions of one millisecond");
    assert_eq!(veto_resolve(&mut desk, &a, Some("no".into())), Some(Some("no".into())));
    assert_eq!(veto_resolve(&mut desk, &a, Some("again".into())), None);
    assert_eq!(veto_resolve(&mut desk, "veto9_9", None), None);
    assert_eq!(veto_resolve(&mut desk, &b, Some("  ".into())), Some(None), "a blank reason blocks nothing");
}

#[test]
fn a_terminal_shows_its_text_however_it_is_cut() {
    let text = "a€é💡z";
    let mut decoder = Decoder::new();
    let shown: String = text.as_bytes().iter().map(|b| decoder.feed(&[*b])).collect();
    assert_eq!(shown, text);
}

#[test]
fn a_deleted_key_is_gone() {
    assert_eq!(saved("p", delete(), Kept::Value(String::new())), Ok(()));
    assert_eq!(saved("p", delete(), Kept::Missing), Ok(()), "deleting nothing is no error");
    assert_eq!(load("p", Kept::Missing), Ok(None));
    assert_ne!(account("p"), account("q"));
}

#[test]
fn extensions_are_looked_for_in_their_places() {
    let texts = |v: Vec<(String, String)>| v.into_iter().map(|d| format!("{} {}", d.0, d.1)).collect::<Vec<_>>();
    assert_eq!(
        texts(plugin_dirs(Some(" /ws "), Some("/home/x"))),
        vec!["global /home/x/.e/plugins", "project /ws/.e/plugins"]
    );
    assert_eq!(
        texts(config_files(Some("/ws"), Some("/home/x"))),
        vec!["global /home/x/.e/mcp.json", "project /ws/.e/mcp.json"]
    );
    assert_eq!(texts(config_files(Some("ws"), None)), Vec::<String>::new());
    assert_eq!(
        texts(SkillStore::for_workspace("/ws", Some("/home/x")).dirs),
        vec!["global /home/x/.e/skills", "global /home/x/.agents/skills", "project /ws/.e/skills"]
    );
    assert_eq!(texts(SkillStore::new(None).dirs), Vec::<String>::new());
}

#[test]
fn a_long_listing_is_cut_and_says_so() {
    let found = |n: usize| (0..n).map(|i| entry(&format!("f{i:05}"), "d\\f", i == 0, 3, 0, false)).collect::<Vec<_>>();
    let all = list("d", found(MAX_ENTRIES), false);
    assert_eq!((all.entries.len(), all.truncated), (MAX_ENTRIES, false));
    assert_eq!((all.entries[0].size, all.entries[1].size), (0, 3), "a folder has no size");
    assert_eq!(all.entries[1].path, "d/f");
    let cut = list("d", found(MAX_ENTRIES + 1), false);
    assert_eq!((cut.entries.len(), cut.truncated), (MAX_ENTRIES, true));
    assert!(cut.entries.iter().all(|e| e.name != format!("f{MAX_ENTRIES:05}")), "the last one found is left out");
    assert!(list("d", found(2), true).truncated);
}
