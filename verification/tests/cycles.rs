use e_lib::engine::browse::is_a_folder;
use e_lib::engine::jobs::{self, capture, finish, kill, poll, start, Capture, Jobs};
use e_lib::engine::mcp::{
    call_outcome, call_params, list_tools, read_config, read_line, request_line, started, starting,
    McpTool, Started, PREFIX,
};
use e_lib::engine::tools::{
    finished, timed_out, PowerShellTool, ProcessPollTool, Route, ToolRegistry, SYNC_MAX,
};
use e_lib::json::{parse, Json};

fn json(text: &str) -> Json {
    parse(text).unwrap()
}

/// The id in "[job bg-…] started in the background".
fn extract_id(out: &str) -> String {
    out.split_whitespace().find(|w| w.starts_with("bg-")).unwrap().trim_end_matches(']').to_string()
}

#[test]
fn a_background_command_runs_to_completion_and_polls_cleanly() {
    let mut table = Jobs::new();
    let command = "Write-Output e-job-marker; Write-Output second-line";
    let id = start(&mut table, "/tmp", command, 7, 0, 1).expect("start");
    capture(&mut table, &id, b"e-job-marker\nsecond-line\n");
    finish(&mut table, &id, 0, 30);
    let out = poll(&mut table, &id, 30).expect("poll");
    assert!(out.contains("e-job-marker"), "{out}");
    assert!(out.contains("second-line"), "{out}");
    assert!(out.contains("exited with code 0"), "{out}");

    let again = poll(&mut table, &id, 30).expect("poll");
    assert!(again.contains("exited with code 0"), "{again}");
    assert!(!again.contains("e-job-marker"), "output must not be returned twice: {again}");
}

#[test]
fn a_failing_command_reports_its_exit_code_and_output() {
    let mut table = Jobs::new();
    let id = start(&mut table, "/tmp", "Write-Output before-fail; exit 3", 7, 0, 1).expect("start");
    capture(&mut table, &id, b"before-fail\n");
    finish(&mut table, &id, 3, 30);
    let out = poll(&mut table, &id, 30).expect("poll");
    assert!(out.contains("exited with code 3"), "{out}");
    assert!(out.contains("before-fail"), "{out}");
}

#[test]
fn killing_a_job_stops_it_and_says_so() {
    let mut table = Jobs::new();
    let id = start(&mut table, "/tmp", "Start-Sleep -Seconds 60", 7, 0, 1).expect("start");
    let (msg, pid) = kill(&mut table, &id).expect("kill");
    assert!(msg.contains("kill"), "{msg}");
    assert_eq!(pid, Some(7), "there is a process to end");
    finish(&mut table, &id, -1, 700);
    let out = poll(&mut table, &id, 700).expect("poll");
    assert!(out.contains("killed by request"), "{out}");
}

#[test]
fn output_printed_before_a_kill_is_not_lost() {
    let mut table = Jobs::new();
    let command = "Write-Output dying-words; Start-Sleep -Milliseconds 800; Start-Sleep -Seconds 60";
    let id = start(&mut table, "/tmp", command, 7, 0, 1).expect("start");
    capture(&mut table, &id, b"dying-words\n");
    let _ = kill(&mut table, &id);
    let mut seen = poll(&mut table, &id, 2000).expect("poll");
    assert!(!seen.contains("killed by request"), "it has not ended yet: {seen}");
    finish(&mut table, &id, -1, 2500);
    let out = poll(&mut table, &id, 2500).expect("poll");
    assert!(out.contains("killed by request"), "never killed: {out}");
    seen.push_str(&out);
    assert!(seen.contains("dying-words"), "the tail must survive the kill: {seen}");
}

#[test]
fn background_true_returns_a_job_id_without_running_the_command_to_completion() {
    let reg = ToolRegistry::new();
    assert!(matches!(reg.route("powershell"), Route::Tool(_)));
    let args = json(r#"{ "command": "Start-Sleep -Seconds 30", "background": true }"#);
    let (command, background) = PowerShellTool.prepare(&args).unwrap();
    assert!(background && command == "Start-Sleep -Seconds 30");
    let mut table = Jobs::new();
    let id = start(&mut table, "/tmp", &command, 7, 0, 1).unwrap();
    let out = PowerShellTool.started(&id);
    assert!(out.contains("started in the background"), "{out}");
    assert_eq!(extract_id(&out), id);
    assert!(kill(&mut table, &extract_id(&out)).is_ok());
}

#[test]
fn the_full_background_cycle_works_end_to_end() {
    let args = json(r#"{ "command": "Write-Output cycle-marker", "background": true }"#);
    let (command, background) = PowerShellTool.prepare(&args).unwrap();
    assert!(background);
    let mut table = Jobs::new();
    let id = extract_id(&PowerShellTool.started(&start(&mut table, "/tmp", &command, 7, 0, 1).unwrap()));
    assert_eq!(jobs::ready(&table, &id), Ok(false), "nothing to report yet");
    capture(&mut table, &id, b"cycle-marker\n");
    finish(&mut table, &id, 0, 20);
    assert_eq!(jobs::ready(&table, &id), Ok(true));
    let asked = json(&format!(r#"{{ "id": "{id}", "wait_ms": 20000 }}"#));
    let (polled, wait) = ProcessPollTool.prepare(&asked).unwrap();
    assert_eq!((polled.as_str(), wait), (id.as_str(), 20_000));
    let out = poll(&mut table, &polled, 20).unwrap();
    assert!(out.contains("exited with code 0"), "{out}");
    assert!(out.contains("cycle-marker"), "{out}");
}

#[test]
fn polling_a_made_up_id_fails_with_a_readable_error() {
    let (id, _) = ProcessPollTool.prepare(&json(r#"{ "id": "bg-nope" }"#)).unwrap();
    let out = poll(&mut Jobs::new(), &id, 0).expect_err("no such job");
    assert!(out.contains("no such background job"), "{out}");
}

#[test]
fn sync_commands_still_return_output_and_exit_code() {
    let mut stdout = Capture::new();
    stdout.push(b"sync-marker\n");
    let mut stderr = Capture::new();
    stderr.push(b"boom\n");
    let out = finished(&stdout.tail(SYNC_MAX), &stderr.tail(SYNC_MAX), 1)
        .expect_err("a failing command must be an Err");
    assert!(out.contains("sync-marker"), "{out}");
    assert!(out.contains("boom"), "stderr must be included: {out}");
    assert!(out.contains("[exit code 1]"), "{out}");
    assert!(finished(&stdout.tail(SYNC_MAX), &stderr.tail(SYNC_MAX), 0).is_ok());
    let killed = timed_out(&stdout.tail(SYNC_MAX), &stderr.tail(SYNC_MAX));
    assert!(killed.contains("sync-marker") && killed.contains("[stderr]\nboom"), "{killed}");
}

#[test]
fn a_servers_tools_are_discovered_registered_and_callable() {
    let text = r#"{ "servers": { "fake": {
        "command": "node", "args": ["server.js"],
        "env": { "E_TEST_TOKEN": "from-env" } } } }"#;
    let confs = read_config(&vec![("project".into(), text.into())]);
    assert_eq!(confs[0].env, vec![("E_TEST_TOKEN".to_string(), "from-env".to_string())]);
    let mut status = starting(&confs);
    assert_eq!(status[0].command, "node server.js");

    let mut reg = ToolRegistry::new();
    let listed = read_line(r#"{"id":3,"result":{"tools":[{"name":"echo","description":"d"}]}}"#, 3);
    let infos = list_tools(&listed.unwrap().unwrap());
    let tool = McpTool::new("fake", infos.into_iter().next().unwrap());
    reg.register(tool.definition());
    started(&mut status, "fake", Started::Ready(vec![tool.qualified.clone()]));
    assert!(reg.get("mcp_fake_echo").is_some(), "tools: {:?}", reg.names());

    let line = request_line(4, "tools/call", call_params(&tool.tool, json(r#"{ "text": "hi" }"#)));
    assert!(line.contains(r#""name":"echo""#) && line.contains(r#""text":"hi""#), "{line}");
    let reply = r#"{"id":4,"result":{"content":[{"type":"text","text":"echo:hi:from-env"}]}}"#;
    let out = call_outcome(&read_line(reply, 4).unwrap().unwrap()).unwrap();
    assert_eq!(out, "echo:hi:from-env");

    let fake = status.iter().find(|s| s.name == "fake").expect("status");
    assert_eq!(fake.state, "ready", "{fake:?}");
    assert_eq!(fake.scope, "project");
    assert_eq!(fake.tools, vec!["mcp_fake_echo".to_string()]);

    reg.unregister_prefix(PREFIX);
    assert!(reg.get("mcp_fake_echo").is_none());
    assert!(reg.get("powershell").is_some(), "built-ins survive a reload");
}

#[test]
fn a_disabled_server_is_listed_but_never_spawned() {
    let text = r#"{ "servers": { "parked": { "command": "node", "args": ["server.js"], "disabled": true } } }"#;
    let confs = read_config(&vec![("project".into(), text.into())]);
    assert!(confs.iter().all(|c| c.disabled), "there is none to start");
    let status = starting(&confs);
    let parked = status.iter().find(|s| s.name == "parked").expect("status");
    assert_eq!(parked.state, "disabled");
}

#[test]
fn a_folder_is_not_a_preview() {
    assert_eq!(is_a_folder("d"), "'d' is a folder");
}
