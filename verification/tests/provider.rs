use e_lib::engine::identity::Identity;
use e_lib::engine::provider::exchange::{Arrival, Exchange, Stage};
use e_lib::engine::provider::models::{listed_models, listing_refused, models_url};
use e_lib::engine::provider::stream::{Delta, Stream};
use e_lib::engine::provider::{
    after_refusal, backoff_delay, jitter_from, jitter_ms, parse_models, refused, truncate,
    ChatProvider, ModelInfo, Verdict, BACKOFF_CAP, BACKOFF_STEPS,
};
use e_lib::engine::{Msg, Part, ToolCall};
use e_lib::json::{parse, render, Json};

fn one(v: &str) -> ModelInfo {
    parse_models(&parse(v).unwrap()).into_iter().next().expect("one model")
}

#[test]
fn backoff_follows_the_schedule_and_only_ever_rounds_up() {
    for (attempt, step) in [(1u32, 1000u64), (2, 15_000), (3, 30_000), (4, 60_000)] {
        let ms = backoff_delay(attempt);
        assert!(ms >= step, "attempt {attempt} waited {ms}ms, under its advertised {step}ms");
        assert!(ms <= step + step / 10, "attempt {attempt} waited {ms}ms, more than 10% over {step}ms");
    }
}

#[test]
fn backoff_saturates_at_the_last_step() {
    let step = BACKOFF_STEPS[BACKOFF_STEPS.len() - 1];
    let ms = backoff_delay(99);
    assert!(
        ms >= step && ms <= step + step / 10,
        "a runaway attempt count waited {ms}ms, off the final {step}ms step"
    );
}

#[test]
fn every_scheduled_step_is_one_we_are_willing_to_wait() {
    for step in BACKOFF_STEPS {
        assert!(step <= BACKOFF_CAP, "{step:?} exceeds the wait we refuse from a provider");
    }
}

#[test]
fn jitter_stays_within_the_span() {
    for span in [0u64, 1, 500, 30_000] {
        assert!(jitter_ms(span) <= span, "jitter escaped its span of {span}ms");
    }
}

#[test]
fn jitter_is_mixed_from_the_clock() {
    let nanos: u64 = 123_456_789;
    let mixed = nanos.wrapping_mul(6364136223846793005).rotate_left(17);
    assert_eq!(jitter_from(nanos, 999), mixed % 1000);
    assert_eq!(jitter_from(nanos, 0), 0);
}

#[test]
fn a_bare_openai_listing_still_yields_the_model() {
    let got = one(r#"{ "data": [{ "id": "gpt-4o", "object": "model", "owned_by": "openai" }] }"#);
    assert_eq!(got.id, "gpt-4o");
    assert_eq!(got.context_window, None, "a silent listing must not invent a window");
    assert_eq!(got.reasoning, None, "silence is not the same as 'no reasoning'");
}

#[test]
fn openrouter_style_metadata_is_kept() {
    let got = one(
        r#"{ "data": [{
            "id": "openai/gpt-5",
            "context_length": 400000,
            "top_provider": { "context_length": 272000, "max_completion_tokens": 128000 },
            "supported_parameters": ["tools", "reasoning", "include_reasoning", "max_tokens"]
        }] }"#,
    );
    assert_eq!(got.context_window, Some(272_000), "the window actually served wins over the headline one");
    assert_eq!(got.reasoning, Some(true));
}

#[test]
fn a_nested_capability_block_is_found() {
    let got = one(
        r#"{ "data": [{
            "id": "gpt-4.1",
            "capabilities": {
                "family": "gpt-4.1",
                "limits": { "max_context_window_tokens": 128000, "max_output_tokens": 16384 },
                "supports": { "streaming": true, "tool_calls": true }
            }
        }] }"#,
    );
    assert_eq!(got.context_window, Some(128_000), "hunting by key beats hard-coding vendor paths");
    assert_eq!(got.reasoning, None);
}

#[test]
fn an_enumerated_parameter_list_without_reasoning_is_a_real_no() {
    let got = one(r#"{ "data": [{ "id": "small", "supported_parameters": ["tools", "max_tokens"] }] }"#);
    assert_eq!(got.reasoning, Some(false), "the provider listed what it takes and reasoning wasn't in it");
}

#[test]
fn advertised_levels_are_captured() {
    let got = one(
        r#"{ "data": [{
            "id": "thinker",
            "supported_reasoning_efforts": ["Low", "medium", "HIGH", "low"],
            "max_model_len": 32768
        }] }"#,
    );
    assert_eq!(got.reasoning, Some(true));
    assert_eq!(got.reasoning_efforts, vec!["low", "medium", "high"], "levels are normalised and de-duplicated");
    assert_eq!(got.context_window, Some(32_768));
}

#[test]
fn an_explicit_false_is_respected_over_a_missing_window() {
    let got = one(r#"{ "data": [{ "id": "plain", "supports_reasoning": false }] }"#);
    assert_eq!(got.reasoning, Some(false));
    assert!(got.reasoning_efforts.is_empty(), "a model that doesn't reason offers no levels");
}

#[test]
fn other_list_shapes_and_duplicates_are_handled() {
    let v = parse(
        r#"{ "models": [
            { "id": "a", "max_input_tokens": 8000 },
            { "id": "a", "max_input_tokens": 99 },
            { "name": "b" },
            { "object": "model" }
        ] }"#,
    )
    .unwrap();
    let got = parse_models(&v);
    assert_eq!(got.iter().map(|m| m.id.as_str()).collect::<Vec<_>>(), vec!["a", "b"]);
    assert_eq!(got[0].context_window, Some(8_000), "the first entry for an id wins");
}

#[test]
fn windows_may_be_fractions_and_reasoning_may_be_words_or_blocks() {
    let got = one(r#"[{ "model": " m ", "context_window": 1.5e5, "reasoning": "Off" }]"#);
    assert_eq!(got.id, "m");
    assert_eq!(got.context_window, Some(150_000));
    assert_eq!(got.reasoning, Some(false));
    let got = one(r#"[{ "id": "m", "reasoning": { "effort": ["low", "High"] }, "context_window": -5 }]"#);
    assert_eq!(got.reasoning, Some(true));
    assert_eq!(got.reasoning_efforts, vec!["low", "high"]);
    assert_eq!(got.context_window, None);
    let got = one(r#"[{ "id": "m", "reasoning_effort": "Medium", "supported_params": ["x"] }]"#);
    assert_eq!((got.reasoning, got.reasoning_efforts), (Some(true), vec!["medium".to_string()]));
    // Four levels down is too deep to be looked at.
    let got = one(r#"[{ "id": "m", "a": { "b": { "c": { "d": { "context_window": 7 } } } } }]"#);
    assert_eq!(got.context_window, None);
    let got = one(r#"[{ "id": "m", "a": { "b": { "c": { "context_window": 7 } } } }]"#);
    assert_eq!(got.context_window, Some(7));
}

#[test]
fn a_listing_is_asked_for_and_checked() {
    assert_eq!(models_url("http://x/v1//"), "http://x/v1/models");
    assert!(listed_models(&parse("{\"data\": []}").unwrap()).is_err());
    assert_eq!(listed_models(&parse("[{\"id\": \"m\"}]").unwrap()).unwrap().len(), 1);
    let long = "y".repeat(400);
    assert_eq!(
        listing_refused("500 Internal Server Error", &long),
        format!("provider returned 500 Internal Server Error: {}", "y".repeat(300))
    );
}

fn provider(effort: Option<&str>) -> ChatProvider {
    ChatProvider::new(
        "https://x.test/v1/".into(),
        String::new(),
        "m".into(),
        "0.7".into(),
        effort.map(|e| e.to_string()),
    )
}

#[test]
fn a_reasoning_level_is_sent_only_when_one_was_chosen() {
    let plain = provider(None);
    let body = plain.to_openai(&[Msg::text("user", "hi")], &vec![]);
    assert!(
        body.get("reasoning_effort").is_none(),
        "a model with no level chosen must not be sent the field"
    );

    let thinking = provider(Some("high"));
    let body = thinking.to_openai(&[Msg::text("user", "hi")], &vec![]);
    assert_eq!(body.get("reasoning_effort"), Some(&Json::Text("high".into())));

    let blank = provider(Some("  "));
    assert!(blank.reasoning_effort.is_none(), "an empty level is no level at all");
}

#[test]
fn a_request_body_holds_the_conversation() {
    let hist = vec![
        Msg::text("system", ""),
        Msg::text("system", "rules"),
        Msg { role: "user".into(), parts: vec![Part::Text("see".into()), Part::ImageData("data:x".into())] },
        Msg::assistant(vec![
            Part::Text("on ".into()),
            Part::Reasoning("hm".into()),
            Part::Text("it".into()),
            Part::ToolCall(ToolCall {
                id: "c1".into(),
                name: "read_file".into(),
                arguments: parse("{\"path\":\"a\"}").unwrap(),
            }),
        ]),
        Msg::tool_result("c1", "read_file", "text".into()),
        Msg::error("boom"),
        Msg::text("narrator", "ignored"),
    ];
    let body = provider(None).to_openai(&hist, &vec![]);
    assert_eq!(
        render(&body),
        concat(&[
            r#"{"messages":[{"content":"rules","role":"system"},"#,
            r#"{"content":[{"text":"see","type":"text"},{"image_url":{"url":"data:x"},"type":"image_url"}],"role":"user"},"#,
            r#"{"content":"on it","role":"assistant","tool_calls":[{"function":{"arguments":"{\"path\":\"a\"}","name":"read_file"},"id":"c1","type":"function"}]},"#,
            r#"{"content":"text","role":"tool","tool_call_id":"c1"}],"#,
            r#""model":"m","stream":true,"temperature":0.7}"#,
        ])
    );
    let tools = vec![Json::Null];
    assert!(provider(None).to_openai(&hist, &tools).get("tools").is_some());
    assert_eq!(provider(None).url(), "https://x.test/v1/chat/completions");
}

fn concat(parts: &[&str]) -> String {
    parts.concat()
}

#[test]
fn every_request_identifies_itself_and_its_session() {
    let who = Identity::new("1.2.3", "linux", "x86_64", Some("e-1-2\n"), 0, 0);
    let p = ChatProvider::with_session(
        "http://x".into(),
        "key".into(),
        "m".into(),
        "1.0".into(),
        None,
        "s-chat42".into(),
    );
    let headers = p.headers(&who);
    let get = |name: &str| headers.iter().find(|h| h.0 == name).map(|h| h.1.clone());
    assert_eq!(get("User-Agent").unwrap(), "e/1.2.3 (linux; x86_64)");
    assert_eq!(get("x-opencode-session").unwrap(), "s-chat42");
    assert_eq!(get("Authorization").unwrap(), "Bearer key");
    let anonymous = provider(None).headers(&who);
    assert!(anonymous.iter().any(|h| h.0 == "x-opencode-session" && h.1 == "e-1-2"));
    assert!(!anonymous.iter().any(|h| h.0 == "Authorization"));
}

#[test]
fn long_errors_are_cut_between_characters() {
    assert_eq!(truncate("abc", 3), "abc");
    assert_eq!(truncate("abcé", 4), "abc…");
}

#[test]
fn refusals_are_retried_or_given_up() {
    match after_refusal(1, 429, "429 Too Many Requests", None, 1050, "slow down") {
        Verdict::Wait(n) => {
            assert_eq!((n.attempt, n.max_attempts, n.delay, n.status), (1, 5, 1050, 429));
            assert_eq!(n.reason, "rate limited");
        }
        Verdict::Fail(e) => panic!("{e}"),
    }
    assert!(matches!(after_refusal(2, 503, "503", Some(0), 1, ""), Verdict::Wait(n)
        if n.delay == 0 && n.reason == "provider unavailable"));
    assert!(matches!(after_refusal(1, 404, "404 Not Found", None, 1, "no"), Verdict::Fail(e)
        if e == "provider returned 404 Not Found: no"));
    assert!(matches!(after_refusal(1, 429, "429", Some(60_001), 1, "shut"), Verdict::Fail(e)
        if e == "provider returned 429: shut"));
    assert!(matches!(after_refusal(5, 429, "429", Some(0), 1, "slow down"), Verdict::Fail(e)
        if e == "provider returned 429 after 4 retries: slow down"));
    assert!(matches!(after_refusal(2, 400, "400", None, 1, "bad"), Verdict::Fail(e)
        if e == "provider returned 400 after 1 retry: bad"));
    assert!(matches!(refused(1, 500, "500", None, "x"), Verdict::Wait(n)
        if (1000..=1100).contains(&n.delay)));
}

fn event(delta: &str) -> String {
    format!("data: {{\"choices\":[{{\"delta\":{delta}}}]}}\n\n")
}

#[test]
fn a_stream_is_put_together_wherever_it_is_cut() {
    let mut body = String::new();
    body.push_str(": comment\n\n");
    body.push_str(&event(r#"{"reasoning":"hm "}"#));
    body.push_str(&event(r#"{"reasoning_content":"ok"}"#));
    body.push_str(&event(r#"{"content":"hé"}"#));
    body.push_str(&event(r#"{"tool_calls":[{"index":1,"id":"b","function":{"name":"two","arguments":"{}"}}]}"#));
    body.push_str(&event(r#"{"tool_calls":[{"index":0,"function":{"name":"one","arguments":"{\"a\""}}]}"#));
    body.push_str(&event(r#"{"tool_calls":[{"index":0,"function":{"arguments":":1}"}}]}"#));
    body.push_str("data: {\"choices\":[{\"delta\":{\"content\":\"llo\"}}],\"usage\":{\"prompt_tokens\":7,\"completion_tokens\":3,\"input_cost\":0.5,\"output_cost\":1}}\n\n");
    body.push_str("data: {\"choices\":[],\"usage\":{\"prompt_tokens\":99}}\n\n");
    body.push_str("data: [DONE]\n\n");
    body.push_str("data: {\"choices\":[{\"delta\":{\"content\":\"never ended\"}}]}");
    let bytes = body.as_bytes();
    for step in [1, 7, bytes.len()] {
        let mut s = Stream::new();
        let mut shown = String::new();
        for chunk in bytes.chunks(step) {
            s.feed(chunk);
            for d in s.take_said() {
                match d {
                    Delta::Text(t) => shown.push_str(&t),
                    Delta::Reasoning(_) => {}
                }
            }
        }
        let c = s.finish();
        assert_eq!(c.text, "héllo");
        assert_eq!(shown, "héllo");
        assert_eq!(c.reasoning, "hm ok");
        assert_eq!(c.usage, (7, 3));
        assert_eq!(c.cost, vec!["0.5", "1"]);
        assert_eq!(c.tool_calls.len(), 2);
        assert_eq!((c.tool_calls[0].id.as_str(), c.tool_calls[0].name.as_str()), ("call_0", "one"));
        assert_eq!(c.tool_calls[0].arguments.get_u64("a"), Some(1));
        assert_eq!((c.tool_calls[1].id.as_str(), c.tool_calls[1].name.as_str()), ("b", "two"));
    }
}

fn under_way() -> Exchange {
    let (body, x) = Exchange::begin(&provider(None), &[Msg::text("user", "hi")], &vec![], false);
    assert!(body.is_some());
    x
}

fn too_many(asked: Option<u64>) -> Arrival {
    Arrival::Refused {
        status: 429,
        status_line: "429 Too Many Requests".into(),
        asked,
        backoff: 1000,
        body: "slow down".into(),
    }
}

#[test]
fn a_throttled_request_backs_off_and_then_succeeds() {
    let mut x = under_way();
    let n = x.step(too_many(None)).expect("the user has to be told about the wait");
    assert_eq!((n.attempt, n.max_attempts), (1, 5), "four retries means five attempts in total");
    assert_eq!((n.status, n.reason.as_str()), (429, "rate limited"));
    assert!((1000..=1100).contains(&n.delay), "first wait was {}ms, off schedule", n.delay);
    assert!(x.step(Arrival::Woken { cancelled: false }).is_none());
    assert_eq!((x.attempt, x.stage), (2, Stage::Sending));
    x.step(Arrival::Accepted);
    x.step(Arrival::Chunk { bytes: event(r#"{"content":"hi"}"#).into_bytes(), cancelled: false });
    x.step(Arrival::Ended);
    assert_eq!(x.outcome.unwrap().unwrap().text, "hi");
}

#[test]
fn retries_run_out_and_the_error_says_so() {
    let mut x = under_way();
    for _ in 0..4 {
        assert!(x.step(too_many(Some(0))).is_some());
        x.step(Arrival::Woken { cancelled: false });
    }
    assert!(x.step(too_many(Some(0))).is_none());
    assert_eq!(x.attempt, 5, "one original attempt plus four retries, and no more");
    let err = x.outcome.unwrap().expect_err("a provider that never lets up must surface the failure");
    assert!(err.contains("429") && err.contains("after 4 retries") && err.contains("slow down"), "{err}");
}

#[test]
fn a_provider_asking_for_an_absurd_wait_is_not_waited_out() {
    let mut x = under_way();
    assert!(x.step(too_many(Some(3_600_000))).is_none(), "a wait that never happens must not be announced");
    assert_eq!((x.attempt, x.stage), (1, Stage::Over), "no point retrying a wait we refused to serve");
    let err = x.outcome.unwrap().expect_err("giving up beats a silent hour");
    assert!(err.contains("429"), "{err}");
}

#[test]
fn stop_during_a_backoff_takes_effect_immediately() {
    let mut x = under_way();
    x.step(too_many(None));
    x.step(Arrival::Woken { cancelled: true });
    assert_eq!((x.attempt, x.stage), (1, Stage::Over), "Stop must not be followed by another request");
    assert!(x.outcome.unwrap().expect("a stopped run is not a failed run").text.is_empty());
}

#[test]
fn a_stop_in_the_middle_keeps_what_was_said() {
    let mut x = under_way();
    x.step(Arrival::Accepted);
    x.step(Arrival::Chunk { bytes: event(r#"{"content":"half"}"#).into_bytes(), cancelled: false });
    x.step(Arrival::Chunk { bytes: event(r#"{"content":"more"}"#).into_bytes(), cancelled: true });
    assert_eq!(x.outcome.unwrap().unwrap().text, "half");
}

#[test]
fn failures_on_the_way_are_reported() {
    let mut x = under_way();
    x.step(Arrival::Unsent { error: "dns".into() });
    assert_eq!(x.outcome.unwrap().expect_err("failed"), "request failed: dns");
    let mut x = under_way();
    x.step(Arrival::Accepted);
    x.step(Arrival::Broken { error: "reset".into(), cancelled: false });
    assert_eq!(x.outcome.unwrap().expect_err("failed"), "stream error: reset");
    let nobody = ChatProvider::new(String::new(), String::new(), "m".into(), "1".into(), None);
    let (body, x) = Exchange::begin(&nobody, &[], &vec![], false);
    assert!(body.is_none());
    assert_eq!(x.outcome.unwrap().expect_err("failed"), "no provider configured");
    let (_, x) = Exchange::begin(&nobody, &[], &vec![], true);
    assert!(x.outcome.unwrap().is_ok());
}

#[test]
fn nothing_is_shown_after_the_end() {
    let mut x = under_way();
    x.step(Arrival::Accepted);
    x.step(Arrival::Chunk { bytes: event(r#"{"content":"half"}"#).into_bytes(), cancelled: false });
    assert_eq!(x.stream.take_said().len(), 1);
    x.step(Arrival::Chunk { bytes: event(r#"{"content":"more"}"#).into_bytes(), cancelled: true });
    assert!(x.stream.take_said().is_empty());
    x.step(Arrival::Chunk { bytes: event(r#"{"content":"late"}"#).into_bytes(), cancelled: false });
    assert!(x.stream.take_said().is_empty() && x.stage == Stage::Over);
}
