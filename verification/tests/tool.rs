use zeroclaw_sticker::api::{api_call_result, sticker_set_request, stickers_from_response, ApiExchange};
use zeroclaw_sticker::config::TelegramStickerConfig;
use zeroclaw_sticker::json::{JsonMember, JsonValue};
use zeroclaw_sticker::messages::{tool_string, tool_string_with_args};
use zeroclaw_sticker::tool::{ResolveStep, TelegramStickerTool, ToolResult};
use zeroclaw_sticker::turn::{TelegramStickerTurnContext, MAX_STICKERS_PER_TURN};

fn s(v: &str) -> JsonValue {
    JsonValue::String(v.to_string())
}

fn obj(members: Vec<(&str, JsonValue)>) -> JsonValue {
    JsonValue::Object(
        members
            .into_iter()
            .map(|(k, v)| JsonMember { key: k.to_string(), value: v })
            .collect(),
    )
}

fn render(v: &JsonValue) -> String {
    match v {
        JsonValue::Null => "null".into(),
        JsonValue::Bool(b) => b.to_string(),
        JsonValue::Number(n) => n.clone(),
        JsonValue::String(t) => format!("{t:?}"),
        JsonValue::Array(a) => format!("[{}]", a.iter().map(render).collect::<Vec<_>>().join(",")),
        JsonValue::Object(m) => format!(
            "{{{}}}",
            m.iter().map(|x| format!("{:?}:{}", x.key, render(&x.value))).collect::<Vec<_>>().join(",")
        ),
    }
}

fn str_member<'a>(v: &'a JsonValue, key: &str) -> Option<&'a str> {
    v.get(key).and_then(|x| x.as_str())
}

fn config() -> TelegramStickerConfig {
    TelegramStickerConfig {
        bot_token: "test-token".into(),
        api_base_url: "http://127.0.0.1:9".into(),
        proxy_url: None,
        sticker_sets: vec!["mood_pack".into()],
    }
}

fn fire_set_reply() -> JsonValue {
    obj(vec![
        ("ok", JsonValue::Bool(true)),
        (
            "result",
            obj(vec![(
                "stickers",
                JsonValue::Array(vec![obj(vec![("emoji", s("🔥")), ("file_id", s("secret-file-id"))])]),
            )]),
        ),
    ])
}

const FIRE_SET_REPLY: &str = r#"{"ok":true,"result":{"stickers":[{"emoji":"🔥","file_id":"secret-file-id"}]}}"#;

fn ok_reply() -> ApiExchange {
    ApiExchange::Received { status: 200, text: r#"{"ok": true}"#.into() }
}

/// Runs the resolution through fetches answered by `reply`.
fn resolve(tool: &mut TelegramStickerTool, config: &TelegramStickerConfig, emoji: &str, reply: impl Fn() -> ApiExchange, fetches: &mut usize) -> ResolveStep {
    let mut step = tool.resolve_from(config, emoji, 0);
    loop {
        match step {
            ResolveStep::Fetch { set_index } => {
                *fetches += 1;
                let body = sticker_set_request(&config.sticker_sets[set_index]);
                assert_eq!(str_member(&body, "name"), Some(config.sticker_sets[set_index].as_str()));
                let fetched = api_call_result("getStickerSet", reply());
                step = tool.accept_sticker_set(config, emoji, set_index, fetched);
            }
            other => return other,
        }
    }
}

fn deliver(tool: &mut TelegramStickerTool, ctx: &mut TelegramStickerTurnContext, emoji: &str, send: ApiExchange, fetches: &mut usize) -> ToolResult {
    let config = config();
    let emoji = match TelegramStickerTool::check_request(Ok(()), &obj(vec![("emoji", s(emoji))])) {
        Ok(e) => e,
        Err(m) => return ToolResult::err(m),
    };
    let config = TelegramStickerTool::check_turn(Some(ctx), Some(config)).expect("configured turn");
    let (set_name, sticker) = match resolve(tool, &config, &emoji, || ApiExchange::Received { status: 200, text: FIRE_SET_REPLY.into() }, fetches) {
        ResolveStep::Found { set_name, sticker } => (set_name, sticker),
        ResolveStep::Failed(m) => return ToolResult::err(m),
        ResolveStep::Fetch { .. } => unreachable!(),
    };
    let body = match TelegramStickerTool::prepare_send(ctx, &sticker) {
        Ok(b) => b,
        Err(m) => return ToolResult::err(m),
    };
    assert_eq!(str_member(&body, "sticker"), Some("secret-file-id"));
    TelegramStickerTool::finish_send(ctx, &emoji, &set_name, api_call_result("sendSticker", send))
}

#[test]
fn exact_emoji_from_configured_set_sends_sticker_without_exposing_file_id() {
    let mut tool = TelegramStickerTool::new();
    let mut ctx = TelegramStickerTurnContext::new("home", "-100200300:42");
    let config = config();
    let mut fetches = 0;
    let (set_name, sticker) = match resolve(&mut tool, &config, "🔥", || ApiExchange::Received { status: 200, text: FIRE_SET_REPLY.into() }, &mut fetches) {
        ResolveStep::Found { set_name, sticker } => (set_name, sticker),
        _ => panic!("exact configured emoji should resolve"),
    };
    assert_eq!(fetches, 1);
    let body = TelegramStickerTool::prepare_send(&ctx, &sticker).expect("send body");
    assert_eq!(str_member(&body, "chat_id"), Some("-100200300"));
    assert_eq!(str_member(&body, "message_thread_id"), Some("42"));
    assert_eq!(str_member(&body, "sticker"), Some("secret-file-id"));
    let result = TelegramStickerTool::finish_send(&mut ctx, "🔥", &set_name, api_call_result("sendSticker", ok_reply()));
    assert!(result.success, "exact configured emoji should send");
    let output = render(result.output.as_ref().unwrap());
    assert!(output.contains("mood_pack"));
    assert!(!output.contains("secret-file-id"));
    assert!(output.contains("\"status\":\"sent\""));
    assert!(output.contains("\"successful_sends\":1"));
    assert_eq!(ctx.successful_sends(), 1);
}

#[test]
fn unmatched_or_raw_file_id_sticker_input_fails_without_sending() {
    let mut tool = TelegramStickerTool::new();
    let config = config();
    let mut fetches = 0;
    // The same emoji followed by a variation selector is not an exact match.
    match resolve(&mut tool, &config, "🔥\u{fe0f}", || ApiExchange::Received { status: 200, text: FIRE_SET_REPLY.into() }, &mut fetches) {
        ResolveStep::Failed(m) => assert!(m.contains("No configured")),
        _ => panic!("unmatched emoji must fail"),
    }
    assert_eq!(fetches, 1);

    let raw = TelegramStickerTool::check_request(Ok(()), &obj(vec![("emoji", s("🔥")), ("file_id", s("secret-file-id"))]));
    assert!(raw.unwrap_err().contains("file_id"));
}

#[test]
fn fourth_successful_sticker_send_fails_and_cached_set_is_not_refetched() {
    let mut tool = TelegramStickerTool::new();
    let mut ctx = TelegramStickerTurnContext::new("home", "-100200300");
    let mut fetches = 0;
    for _ in 0..MAX_STICKERS_PER_TURN {
        let result = deliver(&mut tool, &mut ctx, "🔥", ok_reply(), &mut fetches);
        assert!(result.success, "first three sends should succeed");
    }
    let fourth = deliver(&mut tool, &mut ctx, "🔥", ok_reply(), &mut fetches);
    assert!(!fourth.success);
    assert!(fourth.error.unwrap().contains("already sent"));
    assert_eq!(ctx.successful_sends(), MAX_STICKERS_PER_TURN);
    assert_eq!(fetches, 1);
}

#[test]
fn telegram_api_failures_do_not_claim_sticker_delivery() {
    let mut tool = TelegramStickerTool::new();
    let mut ctx = TelegramStickerTurnContext::new("home", "-100200300");
    let mut fetches = 0;
    let failed = ApiExchange::Received { status: 500, text: "upstream unavailable".into() };
    let result = deliver(&mut tool, &mut ctx, "🔥", failed, &mut fetches);
    assert!(!result.success);
    let error = result.error.unwrap();
    assert!(error.contains("sendSticker HTTP failure"));
    assert!(error.contains("500"));
    assert_eq!(ctx.successful_sends(), 0);
}

#[test]
fn missing_sticker_pack_reports_api_failure_without_sending() {
    let mut tool = TelegramStickerTool::new();
    let config = config();
    let mut fetches = 0;
    let missing = || ApiExchange::Received {
        status: 200,
        text: r#"{"ok": false, "description": "pack missing"}"#.into(),
    };
    match resolve(&mut tool, &config, "🔥", missing, &mut fetches) {
        ResolveStep::Failed(m) => assert!(m.contains("getStickerSet API failure")),
        _ => panic!("missing pack must fail"),
    }
    // Nothing was cached for the failed set: the next resolution fetches again.
    assert!(matches!(tool.resolve_from(&config, "🔥", 0), ResolveStep::Fetch { set_index: 0 }));
}

#[test]
fn sticker_action_obeys_the_act_policy_gate() {
    let result = TelegramStickerTool::check_request(Err("autonomy is read-only".into()), &obj(vec![("emoji", s("🔥"))]));
    let error = result.unwrap_err();
    assert!(error.contains("Action blocked"));
    assert!(error.contains("autonomy is read-only"));
}

#[test]
fn request_checks_report_missing_and_blank_emoji() {
    let missing = TelegramStickerTool::check_request(Ok(()), &obj(vec![]));
    assert_eq!(missing.unwrap_err(), tool_string("tool-telegram-sticker-error-missing-emoji"));
    let not_text = TelegramStickerTool::check_request(Ok(()), &obj(vec![("emoji", JsonValue::Number("1".into()))]));
    assert_eq!(not_text.unwrap_err(), tool_string("tool-telegram-sticker-error-missing-emoji"));
    let blank = TelegramStickerTool::check_request(Ok(()), &obj(vec![("emoji", s(" \t"))]));
    assert_eq!(blank.unwrap_err(), tool_string("tool-telegram-sticker-error-empty-emoji"));
    let fine = TelegramStickerTool::check_request(Ok(()), &obj(vec![("emoji", s(" 🔥 "))]));
    assert_eq!(fine.unwrap(), " 🔥 ");
    let not_object = TelegramStickerTool::check_request(Ok(()), &JsonValue::Null);
    assert_eq!(not_object.unwrap_err(), tool_string("tool-telegram-sticker-error-missing-emoji"));
}

#[test]
fn turn_checks_cover_turn_alias_credentials_and_sets() {
    let ctx = TelegramStickerTurnContext::new("home", "-100200300");
    let no_turn = TelegramStickerTool::check_turn(None, Some(config()));
    assert_eq!(no_turn.err().unwrap(), tool_string("tool-telegram-sticker-error-no-turn"));
    let no_alias = TelegramStickerTool::check_turn(Some(&ctx), None);
    let e = no_alias.err().unwrap();
    assert!(e.contains("home"));
    assert_eq!(e, tool_string_with_args("tool-telegram-sticker-error-alias-not-configured", &[("alias", "home")]));
    let blank_token = TelegramStickerConfig { bot_token: "  ".into(), ..config() };
    assert_eq!(
        TelegramStickerTool::check_turn(Some(&ctx), Some(blank_token)).err().unwrap(),
        tool_string("tool-telegram-sticker-error-missing-credentials")
    );
    let blank_url = TelegramStickerConfig { api_base_url: "".into(), ..config() };
    assert_eq!(
        TelegramStickerTool::check_turn(Some(&ctx), Some(blank_url)).err().unwrap(),
        tool_string("tool-telegram-sticker-error-missing-credentials")
    );
    let no_sets = TelegramStickerConfig { sticker_sets: vec![], ..config() };
    assert_eq!(
        TelegramStickerTool::check_turn(Some(&ctx), Some(no_sets)).err().unwrap(),
        tool_string("tool-telegram-sticker-error-no-sets")
    );
    assert!(TelegramStickerTool::check_turn(Some(&ctx), Some(config())).is_ok());
}

#[test]
fn api_results_report_each_failure_in_order() {
    let m = "getStickerSet";
    assert_eq!(api_call_result(m, ApiExchange::TransportFailed).err().unwrap(), "Telegram getStickerSet request failed before a response arrived");
    assert_eq!(api_call_result(m, ApiExchange::ReadFailed).err().unwrap(), "Telegram getStickerSet response could not be read");
    assert_eq!(
        api_call_result(m, ApiExchange::Received { status: 404, text: FIRE_SET_REPLY.into() }).err().unwrap(),
        "Telegram getStickerSet HTTP failure (status 404)"
    );
    assert_eq!(
        api_call_result(m, ApiExchange::Received { status: 299, text: "{\"ok\": true".into() }).err().unwrap(),
        "Telegram getStickerSet response is not valid JSON"
    );
    assert_eq!(
        api_call_result(m, ApiExchange::Received { status: 200, text: r#"{"ok": "true"}"#.into() }).err().unwrap(),
        "Telegram getStickerSet API failure"
    );
    let ok = api_call_result(m, ApiExchange::Received { status: 200, text: FIRE_SET_REPLY.into() }).ok().unwrap();
    assert_eq!(render(&ok), render(&fire_set_reply()));
    // The reply is parsed from its text: numbers keep their notation, nesting is kept.
    let parsed = api_call_result(m, ApiExchange::Received { status: 201, text: r#"{"ok":true,"n":[1,2.5,null,false]}"#.into() }).ok().unwrap();
    assert_eq!(render(&parsed), "{\"n\":[1,2.5,null,false],\"ok\":true}");
}

#[test]
fn sticker_listing_keeps_only_complete_entries() {
    let reply = obj(vec![(
        "result",
        obj(vec![(
            "stickers",
            JsonValue::Array(vec![
                obj(vec![("emoji", s("🔥")), ("file_id", s("a"))]),
                obj(vec![("emoji", s("")), ("file_id", s("b"))]),
                obj(vec![("emoji", s("😀")), ("file_id", s(""))]),
                obj(vec![("emoji", s("😀"))]),
                obj(vec![("emoji", JsonValue::Bool(true)), ("file_id", s("c"))]),
                obj(vec![("file_id", s("d")), ("emoji", s("😎"))]),
            ]),
        )]),
    )]);
    let stickers = stickers_from_response(&reply).ok().unwrap();
    assert_eq!(stickers.len(), 2);
    assert_eq!((stickers[0].emoji.as_str(), stickers[0].file_id.as_str()), ("🔥", "a"));
    assert_eq!((stickers[1].emoji.as_str(), stickers[1].file_id.as_str()), ("😎", "d"));
    let missing = stickers_from_response(&obj(vec![("result", obj(vec![]))]));
    assert_eq!(missing.err().unwrap(), tool_string("tool-telegram-sticker-error-missing-metadata"));
}

#[test]
fn resolution_moves_past_sets_without_the_emoji() {
    let mut tool = TelegramStickerTool::new();
    let config = TelegramStickerConfig { sticker_sets: vec!["first".into(), "second".into()], ..config() };
    let step = tool.resolve_from(&config, "😀", 0);
    assert!(matches!(step, ResolveStep::Fetch { set_index: 0 }));
    let step = tool.accept_sticker_set(&config, "😀", 0, Ok(fire_set_reply()));
    assert!(matches!(step, ResolveStep::Fetch { set_index: 1 }));
    let second = obj(vec![
        ("ok", JsonValue::Bool(true)),
        ("result", obj(vec![("stickers", JsonValue::Array(vec![obj(vec![("emoji", s("😀")), ("file_id", s("grin"))])]))])),
    ]);
    match tool.accept_sticker_set(&config, "😀", 1, Ok(second)) {
        ResolveStep::Found { set_name, sticker } => {
            assert_eq!(set_name, "second");
            assert_eq!(sticker.file_id, "grin");
        }
        _ => panic!("second set holds the emoji"),
    }
    // Both sets are cached now.
    assert_eq!(tool.cache().len(), 2);
    match tool.resolve_from(&config, "🔥", 0) {
        ResolveStep::Found { set_name, .. } => assert_eq!(set_name, "first"),
        _ => panic!("cached first set holds the emoji"),
    }
    assert!(matches!(tool.accept_sticker_set(&config, "😀", 0, Err("boom".into())), ResolveStep::Failed(m) if m == "boom"));
}

#[test]
fn empty_chat_target_is_rejected_and_empty_thread_is_omitted() {
    let sticker = zeroclaw_sticker::cache::ResolvedSticker { emoji: "🔥".into(), file_id: "f".into() };
    let empty = TelegramStickerTurnContext::new("home", " :42");
    assert_eq!(
        TelegramStickerTool::prepare_send(&empty, &sticker).err().unwrap(),
        tool_string("tool-telegram-sticker-error-empty-target")
    );
    let no_thread = TelegramStickerTurnContext::new("home", "-1:");
    let body = TelegramStickerTool::prepare_send(&no_thread, &sticker).ok().unwrap();
    assert_eq!(render(&body), "{\"chat_id\":\"-1\",\"sticker\":\"f\"}");
    let nested = TelegramStickerTurnContext::new("home", "-1:2:3");
    let body = TelegramStickerTool::prepare_send(&nested, &sticker).ok().unwrap();
    assert_eq!(str_member(&body, "message_thread_id"), Some("2:3"));
}

#[test]
fn api_url_trims_trailing_slashes_of_the_base() {
    let c = TelegramStickerConfig { api_base_url: "https://api.telegram.org//".into(), ..config() };
    assert_eq!(TelegramStickerTool::api_url(&c, "sendSticker"), "https://api.telegram.org/bottest-token/sendSticker");
    let c = TelegramStickerConfig { api_base_url: "http://x".into(), ..config() };
    assert_eq!(TelegramStickerTool::api_url(&c, "getStickerSet"), "http://x/bottest-token/getStickerSet");
}

#[test]
fn target_parts_split_at_the_first_colon() {
    assert_eq!(TelegramStickerTool::target_parts("-100200300:42"), ("-100200300", Some("42")));
    assert_eq!(TelegramStickerTool::target_parts("-100200300"), ("-100200300", None));
    assert_eq!(TelegramStickerTool::target_parts("a:b:c"), ("a", Some("b:c")));
    assert_eq!(TelegramStickerTool::target_parts(":"), ("", Some("")));
}

#[test]
fn messages_fill_named_arguments() {
    assert_eq!(
        tool_string_with_args("tool-telegram-sticker-error-quota", &[("limit", "3")]),
        "Sticker limit reached: already sent 3 stickers this turn"
    );
    assert_eq!(
        tool_string_with_args("tool-telegram-sticker-error-no-match", &[]),
        "No configured sticker matches emoji {$emoji}"
    );
    assert_eq!(
        tool_string_with_args("tool-telegram-sticker-error-no-match", &[("emoji", "🔥"), ("emoji", "x")]),
        "No configured sticker matches emoji 🔥"
    );
    assert!(tool_string("tool-telegram-sticker-error-raw-file-id").contains("file_id"));
}

#[test]
fn schema_requires_only_an_emoji_string() {
    let tool = TelegramStickerTool::new();
    assert_eq!(tool.name(), "sticker");
    let schema = render(&tool.parameters_schema());
    assert!(schema.starts_with("{\"type\":\"object\",\"properties\":{\"emoji\":{\"type\":\"string\",\"description\":"));
    assert!(schema.ends_with("\"required\":[\"emoji\"],\"additionalProperties\":false}"));
    assert!(!tool.description().is_empty());
}
