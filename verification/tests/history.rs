use e_lib::engine::repair::repair_tool_calls;
use e_lib::engine::{
    checked_est_tokens, checked_keep_split, est_tokens, keep_split, Msg, Part, ToolCall,
    COMPACTION_MARKER, INTERRUPTED_TOOL_RESULT, KEEP_FLOOR, KEEP_RECENT,
};
use e_lib::json::{parse, Json};

fn msg(role: &str, chars: usize) -> Msg {
    Msg::text(role, &"x".repeat(chars))
}

#[test]
fn keeps_a_generous_tail_when_messages_are_small() {
    let hist: Vec<Msg> = (0..200).map(|_| msg("user", 40)).collect();
    let split = keep_split(&hist, 1_000_000);
    assert_eq!(hist.len() - split, KEEP_RECENT, "small messages should keep the full message cap");
}

#[test]
fn tail_is_capped_by_the_token_budget_not_the_message_count() {
    let hist: Vec<Msg> = (0..80).map(|_| msg("user", 100_000)).collect();
    let split = keep_split(&hist, 200_000);
    let kept = hist.len() - split;
    assert!(kept < KEEP_RECENT, "huge messages must not fill the window: kept {kept}");
    assert!(kept >= KEEP_FLOOR, "must never strand the model: kept {kept}");
}

#[test]
fn never_starts_the_kept_slice_with_an_orphaned_tool_result() {
    let mut hist: Vec<Msg> = vec![msg("user", 10)];
    for _ in 0..60 {
        hist.push(msg("assistant", 10));
        hist.push(Msg::tool_result("1", "shell", "out".into()));
        hist.push(Msg::tool_result("2", "shell", "out".into()));
    }
    let split = keep_split(&hist, 1_000_000);
    assert_ne!(hist[split].role, "tool", "kept slice must not begin with a tool result");
}

#[test]
fn compaction_marker_round_trips_and_plain_messages_are_untouched() {
    let m = Msg::text("user", &format!("{COMPACTION_MARKER}a summary"));
    assert_eq!(m.compaction_summary().as_deref(), Some("a summary"));
    assert_eq!(Msg::text("user", "hello").compaction_summary(), None);
}

fn call(id: &str) -> Msg {
    Msg::assistant(vec![Part::ToolCall(ToolCall {
        id: id.into(),
        name: "shell".into(),
        arguments: Json::Null,
    })])
}

fn answered_ids(hist: &[Msg]) -> Vec<String> {
    hist.iter()
        .flat_map(|m| m.parts.iter())
        .filter_map(|p| match p {
            Part::ToolResult { id, .. } => Some(id.clone()),
            _ => None,
        })
        .collect()
}

#[test]
fn a_tool_call_killed_mid_run_gets_a_placeholder_result() {
    let mut hist = vec![Msg::text("user", "go"), call("c1"), Msg::text("user", "still there?")];
    assert_eq!(repair_tool_calls(&mut hist), 1);
    assert_eq!(hist[2].role, "tool", "the result must directly follow its call");
    assert_eq!(answered_ids(&hist), vec!["c1"]);
    assert_eq!(repair_tool_calls(&mut hist), 0, "repair must be idempotent");
}

#[test]
fn partially_answered_batches_keep_their_real_results() {
    let mut hist = vec![
        Msg::assistant(vec![
            Part::ToolCall(ToolCall { id: "a".into(), name: "shell".into(), arguments: Json::Null }),
            Part::ToolCall(ToolCall { id: "b".into(), name: "read_file".into(), arguments: Json::Null }),
        ]),
        Msg::tool_result("a", "shell", "real output".into()),
    ];
    assert_eq!(repair_tool_calls(&mut hist), 1);
    assert_eq!(answered_ids(&hist), vec!["a", "b"], "the real result must survive, in order");
    assert!(hist[1]
        .parts
        .iter()
        .any(|p| matches!(p, Part::ToolResult { content, .. } if content == "real output")));
    assert!(hist[2]
        .parts
        .iter()
        .any(|p| matches!(p, Part::ToolResult { content, .. } if content == INTERRUPTED_TOOL_RESULT)));
}

#[test]
fn results_whose_call_is_gone_are_dropped() {
    let mut hist = vec![Msg::text("user", "go"), Msg::tool_result("ghost", "shell", "out".into())];
    assert_eq!(repair_tool_calls(&mut hist), 1);
    assert_eq!(hist.len(), 1);
    assert!(answered_ids(&hist).is_empty());
}

#[test]
fn a_healthy_history_is_left_alone() {
    let mut hist =
        vec![Msg::text("user", "go"), call("c1"), Msg::tool_result("c1", "shell", "ok".into())];
    let before = hist.len();
    assert_eq!(repair_tool_calls(&mut hist), 0);
    assert_eq!(hist.len(), before);
}

#[test]
fn a_repair_drops_and_fills_in_one_pass() {
    let mut hist = vec![
        Msg::tool_result("ghost", "shell", "out".into()),
        call("c1"),
        call("c2"),
        Msg::tool_result("c2", "shell", "ok".into()),
    ];
    assert_eq!(repair_tool_calls(&mut hist), 2);
    assert_eq!(answered_ids(&hist), vec!["c1", "c2"]);
    assert_eq!(hist.len(), 4);
}

#[test]
fn an_estimate_is_a_quarter_of_the_bytes() {
    assert_eq!(est_tokens(&msg("user", 41)), 10);
    let pictures = Msg { role: "user".into(), parts: vec![Part::ImageData("data:".into())] };
    assert_eq!(est_tokens(&pictures), 1000);
    let call = Msg::assistant(vec![Part::ToolCall(ToolCall {
        id: "1".into(),
        name: "name".into(),
        arguments: parse("{\"b\": 1, \"a\": 2}").unwrap(),
    })]);
    // `{"a":2,"b":1}` has 13 bytes.
    assert_eq!(est_tokens(&call), 4);
    assert_eq!(checked_est_tokens(&Msg::error("boom")), Some(0));
}

#[test]
fn a_history_of_system_messages_alone_has_no_split_point() {
    assert_eq!(checked_keep_split(&[Msg::text("system", "s")], 1000), None);
    assert_eq!(checked_keep_split(&[], 1000), Some(0));
    assert_eq!(checked_keep_split(&[Msg::text("user", "u")], 1000), Some(0));
}

#[test]
fn plain_text_joins_the_texts_only() {
    let m = Msg::assistant(vec![
        Part::Text("a".into()),
        Part::Reasoning("hm".into()),
        Part::Text("b".into()),
    ]);
    assert_eq!(m.plain_text_parts(), "a\nb");
}
