use e_lib::engine::jobs::Capture;
use e_lib::engine::plugins::PluginToolDef;
use e_lib::engine::skills::SkillMeta;
use e_lib::engine::tools::{
    finished, format_sync_output, timed_out, ListDirTool, PowerShellTool, ProcessKillTool,
    ProcessPollTool, ReadFileTool, Route, SkillsTool, ToolContext, ToolDef, ToolRegistry,
    WriteFileTool,
};
use e_lib::json::{parse, render, Json};

fn ctx(ws: &str) -> ToolContext {
    ToolContext { workspace: ws.to_string() }
}

#[test]
fn relative_workspace_is_refused_even_when_it_resolves() {
    let got = ctx("e-stray-check").dir(true);
    assert!(got.is_err(), "relative workspace resolved to {got:?}");
}

#[test]
fn an_absolute_existing_workspace_is_accepted() {
    assert_eq!(ctx("/some/folder").dir(true).unwrap(), "/some/folder");
    assert!(ctx("/some/folder").dir(false).unwrap_err().contains("does not exist: /some/folder"));
}

#[test]
fn an_empty_workspace_is_refused_rather_than_using_the_launch_dir() {
    assert!(ctx("").dir(true).is_err());
    assert!(ctx("").dir(false).is_err());
}

#[test]
fn paths_resolve_in_the_workspace() {
    assert_eq!(ctx("/w").resolve("a/b", true).unwrap(), "/w/a/b");
    assert_eq!(ctx("").resolve("/abs", false).unwrap(), "/abs");
    assert!(ctx("").resolve("a", true).is_err());
    assert_eq!(ctx("/w").resolve_with("a", false, Err("no".into()), "x"), Err("no".into()));
}

fn plugin_tool(plugin: &str, name: &str) -> PluginToolDef {
    PluginToolDef {
        name: name.to_string(),
        description: "test".to_string(),
        parameters: parse("{ \"type\": \"object\" }").unwrap(),
        plugin: plugin.to_string(),
    }
}

fn schema_names(reg: &ToolRegistry) -> Vec<String> {
    reg.openai_schema(&vec![])
        .iter()
        .map(|t| t.get("function").unwrap().get_str("name").unwrap())
        .collect()
}

#[test]
fn a_plugin_tool_cannot_shadow_a_built_in() {
    let mut reg = ToolRegistry::new();
    let refused = reg.set_plugin_tools(vec![
        plugin_tool("sneaky", "powershell"),
        plugin_tool("bash-backdoor", "shell"),
        plugin_tool("ok", "say_hi"),
    ]);

    assert_eq!(refused.len(), 2, "{refused:?}");
    assert!(refused.iter().any(|r| r.contains("powershell")), "{refused:?}");
    assert!(refused.iter().any(|r| r.contains("shell")), "{refused:?}");
    assert!(!reg.has_plugin_tool("shell"));
    assert!(!reg.has_plugin_tool("powershell"));
    assert!(reg.has_plugin_tool("say_hi"));

    let names = schema_names(&reg);
    assert!(!names.iter().any(|n| n == "shell"), "generic shell leaked into schema: {names:?}");
    assert_eq!(names.iter().filter(|n| *n == "powershell").count(), 1, "duplicate tool name: {names:?}");
}

#[test]
fn two_plugins_registering_the_same_tool_keep_only_the_first() {
    let mut reg = ToolRegistry::new();
    let refused = reg.set_plugin_tools(vec![plugin_tool("a", "dup"), plugin_tool("b", "dup")]);
    assert_eq!(refused.len(), 1, "{refused:?}");
    assert!(refused[0].contains("'b'"), "{refused:?}");
}

#[test]
fn a_renamed_plugin_tool_is_reported_and_kept() {
    let mut reg = ToolRegistry::new();
    let told = reg.set_plugin_tools(vec![plugin_tool("", "say hi")]);
    assert_eq!(told, vec!["a plugin: tool 'say hi' was renamed to 'say_hi' (a-z, 0-9, _ and - only)"]);
    assert!(reg.has_plugin_tool("say_hi"));
}

#[test]
fn tools_can_be_retired_by_prefix() {
    let mut reg = ToolRegistry::new();
    reg.register(ToolDef {
        name: "mcp:files/read".into(),
        description: "fake".into(),
        parameters: parse("{ \"type\": \"object\" }").unwrap(),
        catalogue: false,
    });
    assert!(reg.names().iter().any(|n| n.starts_with("mcp_")));
    reg.unregister_prefix("mcp_");
    assert!(!reg.names().iter().any(|n| n.starts_with("mcp_")));
    assert!(reg.get("powershell").is_some(), "built-ins must survive");
}

#[test]
fn the_process_tools_are_registered() {
    let reg = ToolRegistry::new();
    assert!(reg.get("process_poll").is_some());
    assert!(reg.get("process_kill").is_some());
    assert_eq!(
        reg.names(),
        vec!["list_dir", "powershell", "process_kill", "process_poll", "read_file", "skills", "write_file"]
    );
}

#[test]
fn names_are_made_acceptable() {
    assert_eq!(ToolRegistry::sanitize_tool_name(""), "tool");
    assert_eq!(ToolRegistry::sanitize_tool_name("é b/c-D_9"), "__b_c-D_9");
    assert_eq!(ToolRegistry::sanitize_tool_name(&"x".repeat(70)).len(), 64);
}

#[test]
fn a_schema_holds_what_a_tool_takes() {
    let reg = ToolRegistry::new();
    let schema = reg.openai_schema(&vec![]);
    let read = schema
        .iter()
        .find(|t| t.get("function").unwrap().get_str("name").unwrap() == "read_file")
        .unwrap();
    assert_eq!(
        render(read),
        "{\"function\":{\"description\":\"Read a text file from the workspace and return its contents (truncated if huge).\",\"name\":\"read_file\",\"parameters\":{\"properties\":{\"path\":{\"type\":\"string\"}},\"required\":[\"path\"],\"type\":\"object\"}},\"type\":\"function\"}"
    );
    let skill = SkillMeta {
        name: "release".into(),
        display: "Release".into(),
        description: "How we ship".into(),
        path: "/s".into(),
        scope: "project".into(),
    };
    let schema = reg.openai_schema(&vec![skill]);
    let skills = schema
        .iter()
        .find(|t| t.get("function").unwrap().get_str("name").unwrap() == "skills")
        .unwrap();
    let text = render(skills);
    assert!(text.contains("\"enum\":[\"release\"]"), "{text}");
    assert!(text.contains("Skill to load. Available: release — How we ship"), "{text}");
}

#[test]
fn calls_are_routed() {
    let mut reg = ToolRegistry::new();
    reg.set_plugin_tools(vec![plugin_tool("p", "mine")]);
    assert!(matches!(reg.route("list_dir"), Route::Tool(0)));
    assert!(matches!(reg.route("mine"), Route::Plugin));
    assert!(matches!(reg.route("nope"), Route::Unknown(e)
        if e == "unknown tool: nope. Available: list_dir, powershell, process_kill, process_poll, read_file, skills, write_file"));
}

fn args(s: &str) -> Json {
    parse(s).unwrap()
}

#[test]
fn arguments_are_checked() {
    assert_eq!(PowerShellTool.prepare(&args("{}")), Err("missing 'command'".into()));
    assert_eq!(PowerShellTool.prepare(&args("{\"command\":\"  \"}")), Err("empty command".into()));
    assert_eq!(
        PowerShellTool.prepare(&args("{\"command\":\" ls \",\"background\":true}")),
        Ok(("ls".into(), true))
    );
    assert_eq!(ProcessPollTool.prepare(&args("{\"id\":\"a\"}")), Ok(("a".into(), 20_000)));
    assert_eq!(ProcessPollTool.prepare(&args("{\"id\":\"a\",\"wait_ms\":99999}")), Ok(("a".into(), 25_000)));
    assert_eq!(ProcessPollTool.prepare(&args("{}")), Err("missing 'id'".into()));
    assert_eq!(ProcessKillTool.prepare(&args("{\"id\":1}")), Err("missing 'id'".into()));
    assert_eq!(ReadFileTool.prepare(&args("{}")), Err("missing 'path'".into()));
    assert_eq!(WriteFileTool.prepare(&args("{\"path\":\"p\"}")), Err("missing 'content'".into()));
    assert_eq!(
        WriteFileTool.prepare(&args("{\"path\":\"p\",\"content\":\"é\"}")),
        Ok(("p".into(), "é".into()))
    );
    assert_eq!(WriteFileTool.written("p", "é"), "wrote 2 bytes to p");
    assert_eq!(ListDirTool.prepare(&args("{}")), ".");
    assert_eq!(SkillsTool.prepare(&args("{}")), Err("missing 'name'".into()));
    assert_eq!(ReadFileTool.is_directory("d"), "d is a directory, use list_dir");
    assert!(PowerShellTool.started("bg-1-1").contains("process_kill(id=\"bg-1-1\")"));
}

#[test]
fn a_folder_is_listed_in_order() {
    let entries = vec![("b".to_string(), false), ("src".to_string(), true), ("a".to_string(), false)];
    assert_eq!(ListDirTool.listing(&entries), "a\nb\nsrc/");
}

#[test]
fn a_huge_file_is_cut_between_characters() {
    assert_eq!(ReadFileTool.text("héllo".as_bytes()), "héllo");
    let mut data = vec![b'x'; 199_999];
    data.extend_from_slice("éé".as_bytes());
    let text = ReadFileTool.text(&data);
    assert_eq!(text, format!("{}\n… (truncated 3 bytes)", "x".repeat(199_999)));
}

#[test]
fn a_missing_skill_is_explained() {
    assert!(SkillsTool.missing("x", &vec![]).contains("no skills are installed"));
    let skill = SkillMeta {
        name: "release".into(),
        display: "r".into(),
        description: String::new(),
        path: String::new(),
        scope: String::new(),
    };
    assert_eq!(SkillsTool.missing("x", &vec![skill]), "skill 'x' not found. Available: release");
}

#[test]
fn the_output_of_a_command_is_reported() {
    let mut out = Capture::new();
    let mut err = Capture::new();
    assert_eq!(format_sync_output(&out.tail(10), &err.tail(10), 0), "(no output)\n[exit code 0]");
    out.push(b"hello\n");
    err.push(b"boom \n");
    assert_eq!(finished(&out.tail(10), &err.tail(10), 1), Err("hello\n\n[stderr]\nboom\n[exit code 1]".into()));
    out.push(b"123456789");
    let text = finished(&out.tail(9), &err.tail(3), 0).unwrap();
    assert_eq!(
        text,
        "[… truncated 6 earlier bytes of stdout]\n123456789\n[stderr]\nm\n[… 3 earlier bytes of stderr were truncated]\n[exit code 0]"
    );
    let quiet = Capture::new();
    assert!(timed_out(&quiet.tail(9), &quiet.tail(9)).ends_with("\n(it printed nothing)"));
    assert!(timed_out(&out.tail(9), &err.tail(9)).ends_with("\n123456789\n[stderr]\nboom"));
}

#[test]
fn relative_paths_lead_into_the_workspace() {
    let ctx = ToolContext { workspace: "/ws".into() };
    assert_eq!(ctx.resolve("src/a.rs", true), Ok("/ws/src/a.rs".into()));
    assert_eq!(ctx.resolve("/etc/x", false), Ok("/etc/x".into()));
    assert!(ctx.resolve("src/a.rs", false).is_err());
    let relative = ToolContext { workspace: "ws".into() };
    assert!(relative.resolve("src/a.rs", true).unwrap_err().contains("relative path (ws)"));
}

#[test]
fn every_request_names_each_tool_once_and_in_order() {
    let mut reg = ToolRegistry::new();
    reg.register(ToolDef {
        name: "mcp_a_b".into(),
        description: String::new(),
        parameters: Json::Null,
        catalogue: false,
    });
    let plugin = |n: &str| PluginToolDef {
        name: n.into(),
        description: String::new(),
        parameters: Json::Null,
        plugin: "p".into(),
    };
    reg.set_plugin_tools(vec![plugin("zeta"), plugin("read_file"), plugin("alpha"), plugin("zeta")]);
    let names: Vec<String> = reg
        .openai_schema(&vec![])
        .iter()
        .map(|e| e.get("function").unwrap().get_str("name").unwrap())
        .collect();
    let mut expected = reg.names();
    assert!(expected.windows(2).all(|w| w[0] < w[1]));
    expected.extend(["zeta".to_string(), "alpha".to_string()]);
    assert_eq!(names, expected);
}
