use e_lib::engine::agent::{tool_preview, Agent, Effect, Event, Phase, Platform, ProjectContext};
use e_lib::engine::config::{parse_bool, Config, Overrides, ProviderItem, Temperature};
use e_lib::engine::{Completion, Msg, Part, ToolCall};
use e_lib::json::{parse, Json};

fn no_env() -> Overrides {
    Overrides { api_key: None, base_url: None, model: None, workspace: None, yolo: None }
}

fn platform() -> Platform {
    Platform { windows: false, os: "linux".into(), arch: "x86_64".into() }
}

fn agent(workspace: &str, project: ProjectContext) -> Agent {
    let mut cfg = Config::from_env("/cwd", None, no_env());
    cfg.workspace = workspace.to_string();
    cfg.system = "House rules.".into();
    let mut a = Agent::new(cfg);
    a.project = project;
    a
}

fn system_of(a: &Agent) -> String {
    a.history()
        .iter()
        .find(|m| m.role == "system")
        .map(|m| m.plain_text_parts())
        .unwrap_or_default()
}

#[test]
fn a_project_chat_is_told_which_project_it_is_in() {
    let mut a = agent(
        "C:/src/mascot",
        ProjectContext { name: "mascot".into(), scratch: false, detached: false },
    );
    a.sync_system(&platform());
    let s = system_of(&a);
    assert!(s.contains("PROJECT: mascot"), "{s}");
    assert!(s.contains("C:/src/mascot"), "{s}");
    assert!(s.contains("House rules."), "{s}");
}

#[test]
fn a_scratch_chat_is_told_there_is_no_project() {
    let mut a = agent(
        "C:/Users/x/.e/tasks",
        ProjectContext { name: "Tasks".into(), scratch: true, detached: false },
    );
    a.sync_system(&platform());
    let s = system_of(&a);
    assert!(s.contains("PROJECT: none"), "{s}");
    assert!(s.contains("Tasks"), "{s}");
    assert!(!s.contains("mascot"), "{s}");
}

#[test]
fn a_detached_chat_is_told_not_to_trust_its_label() {
    let mut a = agent(
        "C:/src/mascot",
        ProjectContext { name: "Tasks".into(), scratch: false, detached: true },
    );
    a.sync_system(&platform());
    let s = system_of(&a);
    assert!(s.contains("PROJECT: unresolved"), "{s}");
    assert!(s.contains("C:/src/mascot"), "{s}");
    assert!(!s.contains("PROJECT: Tasks"), "{s}");
}

#[test]
fn a_stale_system_message_is_replaced_not_appended() {
    let mut a = agent(
        "C:/src/mascot",
        ProjectContext { name: "mascot".into(), scratch: false, detached: false },
    );
    a.set_history(vec![
        Msg::text("system", "Workspace: C:/src/somewhere-else"),
        Msg::text("user", "hi"),
    ]);
    a.sync_system(&platform());

    let h = a.history();
    assert_eq!(h.iter().filter(|m| m.role == "system").count(), 1);
    assert_eq!(h[0].role, "system");
    assert!(!system_of(&a).contains("somewhere-else"), "{}", system_of(&a));
    assert!(system_of(&a).contains("C:/src/mascot"));
    assert_eq!(h[1].plain_text_parts(), "hi");
}

#[test]
fn the_platform_is_named() {
    let mut a = agent("/w", ProjectContext { name: " ".into(), scratch: false, detached: false });
    a.sync_system(&Platform { windows: true, os: "windows".into(), arch: "arm64".into() });
    assert!(system_of(&a).starts_with("PLATFORM (auto-detected at startup): Windows (arm64)."));
    assert!(system_of(&a).contains("PROJECT: (unnamed)\n"));
}

fn call(id: &str, name: &str) -> ToolCall {
    ToolCall { id: id.into(), name: name.into(), arguments: parse("{\"path\":\"a\"}").unwrap() }
}

fn answer(text: &str, calls: Vec<ToolCall>) -> Completion {
    Completion {
        text: text.into(),
        tool_calls: calls,
        usage: (10, 2),
        cost: vec!["0.5".into()],
        reasoning: String::new(),
    }
}

fn started(yolo: bool) -> Agent {
    let mut a = agent("/w", ProjectContext { name: "p".into(), scratch: false, detached: false });
    a.config.yolo = yolo;
    a.begin("do it", &vec!["".into(), "data:x".into()], &platform());
    assert_eq!(a.history[1].parts.len(), 2, "an empty picture is dropped");
    a
}

fn poll(cancelled: bool) -> Event {
    Event::Polled { cancelled }
}

#[test]
fn a_turn_runs_tools_until_the_model_is_done() {
    let mut a = started(false);
    let e = a.step(poll(false));
    assert!(matches!(&e[..], [Effect::Activity { tool: None, step: 1 }]));
    let e = a.step(Event::Answered {
        completion: answer("on it", vec![call("c1", "read_file"), call("c2", "powershell")]),
        cancelled: false,
    });
    assert!(matches!(
        &e[..],
        [Effect::ToolCall(_), Effect::ToolCall(_), Effect::MessageEnd, Effect::Persist]
    ));
    a.step(poll(false));
    assert_eq!(a.phase, Phase::Guarding(0));
    a.step(Event::Guarded { refusal: None });
    assert_eq!(a.phase, Phase::Running(0), "reading needs no approval");
    let e = a.step(Event::Ran { success: true, output: "text".into() });
    assert!(matches!(&e[..], [Effect::ToolResult { success: true, .. }, Effect::Persist]));
    a.step(poll(false));
    a.step(Event::Guarded { refusal: None });
    assert_eq!(a.phase, Phase::Approving(1));
    let e = a.step(Event::Approved { approved: false, cancelled: false });
    assert!(matches!(&e[..], [Effect::ToolResult { success: false, output, .. }] if output == "Denied by user"));
    a.step(poll(false));
    assert_eq!(a.phase, Phase::Top);
    a.step(poll(false));
    let e = a.step(Event::Answered { completion: answer("done", vec![]), cancelled: false });
    assert!(matches!(
        &e[..],
        [Effect::MessageEnd, Effect::Persist, Effect::Summary, Effect::Done { stopped: false }]
    ));
    let s = a.stats.to_summary();
    assert_eq!((s.steps, s.tool_calls, s.tokens_in, s.tokens_out, s.context_tokens), (2, 1, 20, 4, 10));
    assert_eq!(s.cost, vec!["0.5", "0.5"]);
    assert_eq!(a.phase, Phase::Over);
    assert!(a.step(poll(false)).is_empty(), "a turn that is over stays so");
}

#[test]
fn a_guard_can_refuse_a_call_before_anyone_is_asked() {
    let mut a = started(false);
    a.step(poll(false));
    a.step(Event::Answered { completion: answer("", vec![call("c1", "write_file")]), cancelled: false });
    a.step(poll(false));
    let e = a.step(Event::Guarded { refusal: Some("not there".into()) });
    assert!(matches!(&e[..], [Effect::ToolResult { success: false, output, .. }] if output == "not there"));
    assert_eq!(a.phase, Phase::Between(1));
}

#[test]
fn nothing_is_asked_in_yolo_mode() {
    let mut a = started(true);
    a.step(poll(false));
    a.step(Event::Answered { completion: answer("", vec![call("c1", "write_file")]), cancelled: false });
    a.step(poll(false));
    a.step(Event::Guarded { refusal: None });
    assert_eq!(a.phase, Phase::Running(0));
}

#[test]
fn every_call_of_a_stopped_turn_gets_a_result() {
    let mut a = started(true);
    a.step(poll(false));
    a.step(Event::Answered {
        completion: answer("", vec![call("c1", "read_file"), call("c2", "read_file")]),
        cancelled: false,
    });
    a.step(poll(true));
    a.step(poll(true));
    let e = a.step(poll(true));
    assert!(matches!(&e[..], [Effect::Summary, Effect::Done { stopped: true }]));
    let answers: Vec<String> = a
        .history
        .iter()
        .flat_map(|m| m.parts.iter())
        .filter_map(|p| match p {
            Part::ToolResult { id, content, .. } => Some(format!("{id}:{content}")),
            _ => None,
        })
        .collect();
    assert_eq!(answers, vec!["c1:Stopped by user", "c2:Stopped by user"]);
    assert!(a.stats.stopped);
}

#[test]
fn a_stop_while_a_person_is_asked_says_so() {
    let mut a = started(false);
    a.step(poll(false));
    a.step(Event::Answered { completion: answer("", vec![call("c1", "shell")]), cancelled: false });
    a.step(poll(false));
    a.step(Event::Guarded { refusal: None });
    let e = a.step(Event::Approved { approved: false, cancelled: true });
    assert!(matches!(&e[..], [Effect::ToolResult { output, .. }] if output == "Stopped by user"));
}

#[test]
fn a_failed_request_is_recorded_in_the_transcript() {
    let mut a = started(false);
    a.step(poll(false));
    let e = a.step(Event::Failed { error: "no provider configured".into() });
    assert!(matches!(
        &e[..],
        [Effect::Persist, Effect::Error(_), Effect::Summary, Effect::Done { stopped: false }]
    ));
    assert!(matches!(&a.history[2].parts[0], Part::Error(e) if e == "no provider configured"));
    assert_eq!(a.stats.error.as_deref(), Some("no provider configured"));
}

#[test]
fn a_stop_before_the_model_is_asked_ends_the_turn() {
    let mut a = started(false);
    let e = a.step(poll(true));
    assert!(matches!(&e[..], [Effect::Summary, Effect::Done { stopped: true }]));
    a.reset();
    assert!(a.history().is_empty());
    let mut cfg = Config::from_env("/cwd", None, no_env());
    cfg.base_url = "http://x/".into();
    a.reload(cfg);
    assert_eq!(a.provider.base_url, "http://x");
}

#[test]
fn a_stop_in_the_middle_of_an_answer_keeps_what_was_said() {
    let mut a = started(false);
    a.step(poll(false));
    let e = a.step(Event::Answered { completion: answer("half", vec![]), cancelled: true });
    assert!(matches!(
        &e[..],
        [Effect::MessageEnd, Effect::Persist, Effect::Summary, Effect::Done { stopped: true }]
    ));
    assert_eq!(a.history[2].plain_text_parts(), "half");
}

#[test]
fn a_preview_shows_what_a_call_is_about() {
    let with = |args: &str| {
        tool_preview(&ToolCall { id: String::new(), name: String::new(), arguments: parse(args).unwrap() })
    };
    assert_eq!(with(r#"{"command":"ls","path":"p"}"#), "ls");
    assert_eq!(with(r#"{"path":"p"}"#), "p");
    assert_eq!(with(r#"{"command":1,"path":"p"}"#), r#"{"command":1,"path":"p"}"#);
    let long = "é".repeat(301);
    assert_eq!(
        tool_preview(&ToolCall {
            id: String::new(),
            name: String::new(),
            arguments: Json::Object(vec![("path".into(), Json::Text(long))]),
        }),
        format!("{}…", "é".repeat(300))
    );
}

fn stored() -> Config {
    let mut c = Config::from_env("/cwd", None, no_env());
    c.base_url = "http://stored".into();
    c.model = "m".into();
    c.workspace = String::new();
    c.yolo = true;
    c.context_window = 0;
    c.temperature = Temperature { bits: 0x4008_0000_0000_0000, text: "3.0".into() };
    c.providers = vec![ProviderItem {
        id: "a".into(),
        name: "A".into(),
        base_url: String::new(),
        api_key: String::new(),
        models: vec![],
        context_window: Some(5),
        enabled: true,
        disabled_models: vec![],
        model_meta: vec![],
    }];
    c
}

#[test]
fn settings_are_laid_over_each_other() {
    let fresh = Config::from_env("/cwd", None, no_env());
    assert!(fresh.base_url.is_empty() && fresh.providers.is_empty(), "a new installation has no provider");
    assert_eq!((fresh.workspace.as_str(), fresh.context_window), ("/cwd", 1_000_000));

    let c = Config::from_env("/cwd", Some(stored()), no_env());
    assert_eq!((c.base_url.as_str(), c.workspace.as_str(), c.yolo), ("http://stored", "/cwd", true));
    assert_eq!(c.context_window, 1_000_000, "no window is no window");
    assert_eq!(c.temperature.text, "0.7", "3 is out of range");
    assert_eq!(c.providers[0].base_url, "http://stored", "the first provider is completed");
    assert_eq!(c.active_context_window(), 5);

    let mut env = no_env();
    env.base_url = Some("http://env".into());
    env.api_key = Some(String::new());
    env.yolo = Some(" OFF ".into());
    let c = Config::from_env("/cwd", Some(stored()), env);
    assert_eq!((c.base_url.as_str(), c.api_key.as_str(), c.yolo), ("http://env", "", false));
}

#[test]
fn temperatures_are_judged_by_their_bits() {
    for (t, ok) in [(0.0f64, true), (-0.0, true), (2.0, true), (2.1, false), (-0.1, false), (f64::NAN, false)] {
        let mut c = stored();
        c.temperature = Temperature { bits: t.to_bits(), text: "new".into() };
        let got = Config::from_env("/cwd", Some(c), no_env()).temperature.text;
        assert_eq!(got == "new", ok, "{t}");
        assert_eq!((0.0..=2.0).contains(&t), ok);
    }
    assert_eq!(Config::from_env("", None, no_env()).temperature.bits, 0.7f64.to_bits());
}

#[test]
fn flags_are_read_leniently() {
    assert_eq!(parse_bool(" Yes "), Some(true));
    assert_eq!(parse_bool("0"), Some(false));
    assert_eq!(parse_bool("maybe"), None);
}

#[test]
fn requests_carry_the_id_of_the_chat() {
    let mut a = Agent::new(Config::from_env("/cwd", None, no_env()));
    assert_eq!(a.provider.session, "");
    a.session = "s42".into();
    a.begin("hi", &vec![], &platform());
    assert_eq!(a.provider.session, "s42");
}
