use qwen_studio::bridge::{
    conclude, decode_reply, encode_line, log_line, mentions_tool, read_bridge_stdout, read_reply,
    request_message, tool_paths, trim_log_line, Bridge, Output, OutputAction, Reply, Waited,
    REQUEST_TIMEOUT_SECS,
};
use qwen_studio::client::{
    config_in_reply, ensure_bridge, mcp_client_close, mcp_client_tool_call, mcp_client_tool_list,
    read_statuses, status_of, tally, tool_count, update_config_call, BridgeAction, BridgeEvent,
    CloseAction, CloseEvent, McpState, Phase, ToolCallParams, ToolListParams,
};
use qwen_studio::icon::window_icon;
use qwen_studio::json::READ_DEPTH;
use qwen_studio::reconfigure::{begin_update, continue_update, Stage, UpdateAction, UpdateEvent};
use qwen_studio::servers::{McpServerConfig, ServerConfigs};
use qwen_studio::settings::{find_servers, put_servers, servers_section, settings_text};
use serde_json::Value;

fn json(text: &str) -> Value {
    serde_json::from_str(text).unwrap()
}

#[test]
fn requests_are_numbered_lines() {
    let mut bridge: Bridge<()> = Bridge::new();
    let first = bridge.send("listTools", json("{\"serverName\":\"a\\nb\"}"), ());
    let second = bridge.send("disconnect", json("{}"), ());
    assert_eq!(first.id, 0);
    assert_eq!(second.id, 1);
    assert_eq!(
        json(&first.line),
        json("{\"id\":0,\"method\":\"listTools\",\"params\":{\"serverName\":\"a\\nb\"}}")
    );
    assert!(first.line.ends_with('\n'));
    assert_eq!(first.line.matches('\n').count(), 1);
    assert_eq!(
        second.line,
        "{\"id\":1,\"method\":\"disconnect\",\"params\":{}}\n"
    );
    for k in 2..50 {
        let request = bridge.send("m", json("\"\\n\""), ());
        assert_eq!(request.id, k);
        assert_eq!(request.line.find('\n'), Some(request.line.len() - 1));
    }
    assert_eq!(REQUEST_TIMEOUT_SECS, 60);
}

#[test]
fn messages_are_framed() {
    let message = request_message(7, "m", json("[1,2]"));
    assert_eq!(message, json("{\"id\":7,\"method\":\"m\",\"params\":[1,2]}"));
    assert_eq!(encode_line(&json("\"x\"")), "\"x\"\n");
}

#[test]
fn replies_are_read() {
    let reply = read_reply("  {\"id\":3,\"result\":{\"a\":1}}\r\n").unwrap();
    assert_eq!(reply.id, 3);
    assert_eq!(reply.outcome, Ok(json("{\"a\":1}")));
    let reply = read_reply("{\"id\":4,\"error\":{\"message\":\"boom\"}}").unwrap();
    assert_eq!((reply.id, reply.outcome), (4, Err("boom".to_string())));
    let reply = read_reply("{\"id\":5,\"error\":{\"message\":1}}").unwrap();
    assert_eq!(reply.outcome, Err("unknown error".to_string()));
    let reply = read_reply("{\"id\":5,\"error\":\"text\"}").unwrap();
    assert_eq!(reply.outcome, Err("unknown error".to_string()));
    let reply = read_reply("{\"id\":6,\"result\":null,\"error\":{}}").unwrap();
    assert_eq!(reply.outcome, Ok(Value::Null));
    for line in [
        "",
        " \n",
        "no json",
        "[]",
        "{\"result\":1}",
        "{\"id\":-1,\"result\":1}",
        "{\"id\":\"1\",\"result\":1}",
        "{\"id\":1.5,\"result\":1}",
        "{\"id\":1}",
    ] {
        assert!(read_reply(line).is_none(), "{:?}", line);
    }
    assert!(decode_reply(&json("{\"id\":1,\"result\":2}")).is_some());
}

fn connected<'a>(waiters: &[&'a str]) -> Bridge<&'a str> {
    let mut bridge = Bridge::new();
    for waiter in waiters {
        bridge.send("m", Value::Null, *waiter);
    }
    bridge
}

#[test]
fn replies_are_matched_to_callers() {
    let mut bridge = connected(&["first", "second"]);
    let reply = |id: u64| Reply {
        id,
        outcome: Ok(Value::Null),
    };
    assert!(bridge.deliver(reply(9)).is_none());
    let (waiter, outcome) = bridge.deliver(reply(1)).unwrap();
    assert_eq!(waiter, "second");
    assert_eq!(outcome, Ok(Value::Null));
    assert!(bridge.deliver(reply(1)).is_none());
    assert_eq!(bridge.deliver(reply(0)).unwrap().0, "first");
}

#[test]
fn a_withdrawn_request_is_not_waited_for() {
    let mut bridge = connected(&["first", "second"]);
    assert_eq!(bridge.withdraw(1), Some("second"));
    assert_eq!(bridge.withdraw(1), None);
    assert!(matches!(
        read_bridge_stdout(&mut bridge, Output::Line("{\"id\":1,\"result\":0}".to_string())),
        OutputAction::Ignore
    ));
    assert_eq!(bridge.send("m", Value::Null, "third").id, 2);
    let (waiting, _) = bridge.hang_up();
    assert_eq!(waiting.len(), 2);
    assert_eq!(waiting.get(&0), Some(&"first"));
    assert_eq!(waiting.get(&2), Some(&"third"));
}

#[test]
fn hanging_up_fails_everyone() {
    let mut bridge = connected(&["first", "second"]);
    let (waiting, error) = bridge.hang_up();
    assert_eq!(waiting.len(), 2);
    assert_eq!(waiting.get(&1), Some(&"second"));
    assert_eq!(error, "Bridge stdout closed, process died");
    assert_eq!(bridge.hang_up().0.len(), 0);
    assert_eq!(bridge.send("m", Value::Null, "third").id, 2);
}

#[test]
fn waiting_ends_with_a_reason() {
    assert_eq!(
        conclude(Waited::TimedOut),
        Err("Bridge request timed out".to_string())
    );
    assert_eq!(
        conclude(Waited::ChannelClosed),
        Err("Bridge channel closed".to_string())
    );
    assert_eq!(conclude(Waited::Replied(Ok(json("1")))), Ok(json("1")));
}

#[test]
fn error_output_is_logged_without_harm() {
    assert_eq!(log_line(b"  connected: X\r\n"), Some("connected: X".to_string()));
    assert_eq!(log_line(b" \r\n"), None);
    assert_eq!(trim_log_line("\ta b\n"), Some("a b".to_string()));
    assert_eq!(trim_log_line(""), None);
    assert_eq!(
        log_line(&[0xcf, b'u', b'v', b'x', b'\n']),
        Some("\u{fffd}uvx".to_string())
    );
}

#[test]
fn tool_paths_are_picked_out() {
    assert_eq!(
        tool_paths("C:\\Windows;C:\\Program Files\\NodeJS;D:\\x;C:\\me\\.CARGO\\bin;uv"),
        vec!["C:\\Program Files\\NodeJS", "C:\\me\\.CARGO\\bin", "uv"]
    );
    assert!(tool_paths("").is_empty());
    assert!(mentions_tool("my-npm-dir") && !mentions_tool("NPM"));
}

#[test]
fn client_calls_have_their_shape() {
    let call = mcp_client_tool_list(&ToolListParams {
        server_name: "Filesystem".to_string(),
    });
    assert_eq!(call.method, "listTools");
    assert_eq!(call.params, json("{\"serverName\":\"Filesystem\"}"));

    let call = mcp_client_tool_call(ToolCallParams {
        server_name: "s".to_string(),
        tool_name: "t".to_string(),
        tool_arguments: Some(json("{\"x\":1}")),
    });
    assert_eq!(call.method, "callTool");
    assert_eq!(
        call.params,
        json("{\"serverName\":\"s\",\"toolName\":\"t\",\"toolArguments\":{\"x\":1}}")
    );
    let call = mcp_client_tool_call(ToolCallParams {
        server_name: "s".to_string(),
        tool_name: "t".to_string(),
        tool_arguments: None,
    });
    assert_eq!(call.params, json("{\"serverName\":\"s\",\"toolName\":\"t\"}"));

    let call = update_config_call(json("{\"a\":{}}"));
    assert_eq!(call.method, "updateConfig");
    assert_eq!(call.params, json("{\"config\":{\"a\":{}}}"));
}

#[test]
fn replies_of_the_client_are_read() {
    assert_eq!(tool_count(&json("{\"tools\":[1,2,3]}")), 3);
    assert_eq!(tool_count(&json("{\"tools\":{}}")), 0);
    assert_eq!(tool_count(&json("{}")), 0);
    assert_eq!(config_in_reply(json("{\"config\":{\"a\":1}}")), json("{\"a\":1}"));
    assert_eq!(config_in_reply(json("{\"a\":1}")), json("{\"a\":1}"));
}

#[test]
fn statuses_are_reported() {
    let reply = json(
        "{\"statuses\":{\"a\":{\"status\":\"connected\"},\"b\":{\"status\":\"failed\",\"error\":\"why\"},\"c\":7}}",
    );
    let mut list = read_statuses(&reply).unwrap();
    list.sort_by(|x, y| x.name.cmp(&y.name));
    let seen: Vec<(String, Option<String>)> =
        list.iter().map(|s| (s.name.clone(), s.error.clone())).collect();
    assert_eq!(
        seen,
        vec![
            ("a".to_string(), None),
            ("b".to_string(), Some("why".to_string())),
            ("c".to_string(), Some("unknown error".to_string())),
        ]
    );
    assert_eq!(tally(&list), (1, 2));
    assert!(read_statuses(&json("{}")).is_none());
    assert!(read_statuses(&json("{\"statuses\":[]}")).is_none());
    assert_eq!(status_of(&json("{\"status\":\"connected\",\"error\":\"x\"}")), None);
}

/// Brings a bridge up, with every step a success.
fn bring_up(state: &mut McpState<&'static str>, bridge: &'static str) {
    let (phase, action) = ensure_bridge(state, Phase::Looking, BridgeEvent::Asked);
    assert!(matches!(phase, Phase::Spawning));
    assert!(matches!(action, BridgeAction::Spawn));
    let (phase, action) = ensure_bridge(state, phase, BridgeEvent::Spawned(Ok(bridge)));
    assert!(matches!(phase, Phase::Loading(b) if b == bridge));
    assert!(matches!(action, BridgeAction::LoadConfig));
    let mut config = ServerConfigs::new();
    config.insert("a".to_string(), McpServerConfig::default());
    let (phase, action) = ensure_bridge(state, phase, BridgeEvent::Loaded(Ok(config)));
    assert!(matches!(phase, Phase::Configuring(b) if b == bridge));
    match action {
        BridgeAction::SendConfig(config) => assert!(config.contains_key("a")),
        other => panic!("{:?}", other),
    }
    assert_eq!(state.bridge(), None);
    let reply = json("{\"statuses\":{\"a\":{\"status\":\"connected\"}}}");
    let (phase, action) = ensure_bridge(state, phase, BridgeEvent::Configured(Ok(reply)));
    assert!(matches!(phase, Phase::Kept));
    match action {
        BridgeAction::Keep(Some(list)) => assert_eq!(tally(&list), (1, 0)),
        other => panic!("{:?}", other),
    }
    assert_eq!(state.bridge(), Some(&bridge));
}

#[test]
fn bridge_is_brought_up_step_by_step() {
    let mut state = McpState::new();
    assert_eq!(state.bridge(), None);
    bring_up(&mut state, "one");
}

#[test]
fn the_bridge_in_use_is_reused_until_it_is_closed() {
    let mut state = McpState::new();
    bring_up(&mut state, "one");
    for _ in 0..3 {
        let (phase, action) = ensure_bridge(&mut state, Phase::Looking, BridgeEvent::Asked);
        assert!(matches!(phase, Phase::Reused));
        assert!(matches!(action, BridgeAction::Reuse));
        assert_eq!(state.bridge(), Some(&"one"));
    }
    let call = match mcp_client_close(&mut state, CloseEvent::Asked) {
        CloseAction::Tell(call) => call,
        other => panic!("{:?}", other),
    };
    assert_eq!((call.method.as_str(), call.params), ("disconnect", json("{}")));
    assert_eq!(state.bridge(), Some(&"one"));
    let told = CloseEvent::Told(Err("Bridge request timed out".to_string()));
    assert!(matches!(
        mcp_client_close(&mut state, told),
        CloseAction::Done(Ok(()))
    ));
    assert_eq!(state.bridge(), None);
    assert!(matches!(
        mcp_client_close(&mut state, CloseEvent::Asked),
        CloseAction::Done(Ok(()))
    ));
    bring_up(&mut state, "two");
    assert!(matches!(
        mcp_client_close(&mut state, CloseEvent::Told(Ok(Value::Null))),
        CloseAction::Done(Ok(()))
    ));
    assert_eq!(state.bridge(), None);
}

#[test]
fn bridge_failures_are_explained() {
    let fail = |phase: Phase<u8>, event: BridgeEvent<u8>| {
        let mut state = McpState::new();
        match ensure_bridge(&mut state, phase, event) {
            (Phase::Failed, BridgeAction::Fail(reason)) => {
                assert_eq!(state.bridge(), None);
                reason
            }
            other => panic!("{:?}", other),
        }
    };
    assert_eq!(
        fail(Phase::Spawning, BridgeEvent::Spawned(Err("e".to_string()))),
        "Bridge spawn: e"
    );
    assert_eq!(
        fail(Phase::Loading(1), BridgeEvent::Loaded(Err("e".to_string()))),
        "e"
    );
    assert_eq!(
        fail(
            Phase::Configuring(1),
            BridgeEvent::Configured(Err("e".to_string()))
        ),
        "Bridge config: e"
    );
    let mut state = McpState::new();
    let old_bridge = BridgeEvent::Configured(Ok(Value::Null));
    match ensure_bridge(&mut state, Phase::Configuring(1u8), old_bridge) {
        (Phase::Kept, BridgeAction::Keep(None)) => assert_eq!(state.bridge(), Some(&1)),
        other => panic!("{:?}", other),
    }
}

fn refusal(action: UpdateAction) -> String {
    match action {
        UpdateAction::Answer(Err(e)) => e,
        other => panic!("{:?}", other),
    }
}

#[test]
fn a_change_is_saved_and_then_told() {
    let servers = json("{\"a\":{\"command\":\"x\",\"disabled\":false}}");
    let (stage, action) = begin_update(Some("{\"theme\":\"dark\"}"), servers.clone());
    match action {
        UpdateAction::Write(text) => {
            assert_eq!(servers_section(Some(&text)), Some(servers.clone()));
            assert_eq!(json(&text).get("theme"), Some(&json("\"dark\"")));
        }
        other => panic!("{:?}", other),
    }
    let (stage, action) = continue_update(stage, UpdateEvent::Written(Ok(())));
    assert!(matches!(action, UpdateAction::EnsureBridge));
    let (stage, action) = continue_update(stage, UpdateEvent::Ensured(Ok(())));
    match action {
        UpdateAction::Tell(call) => {
            assert_eq!(call.method, "updateConfig");
            assert_eq!(call.params.get("config"), Some(&servers));
        }
        other => panic!("{:?}", other),
    }
    let reply = json("{\"config\":{\"b\":{}},\"statuses\":{\"b\":{\"status\":\"connected\"}}}");
    let (stage, action) = continue_update(stage, UpdateEvent::Told(Ok(reply)));
    assert!(matches!(stage, Stage::Ended));
    match action {
        UpdateAction::Answer(Ok(outcome)) => {
            assert_eq!(outcome.config, json("{\"b\":{}}"));
            assert_eq!(tally(&outcome.statuses.unwrap()), (1, 0));
        }
        other => panic!("{:?}", other),
    }
}

#[test]
fn a_change_that_fails_is_explained() {
    let (stage, _) = begin_update(None, json("{}"));
    let (stage, action) = continue_update(stage, UpdateEvent::Written(Err("full".to_string())));
    assert!(matches!(stage, Stage::Ended));
    assert_eq!(refusal(action), "full");

    let (stage, _) = begin_update(None, json("{}"));
    let (stage, _) = continue_update(stage, UpdateEvent::Written(Ok(())));
    let (stage, action) = continue_update(stage, UpdateEvent::Ensured(Err("none".to_string())));
    assert!(matches!(stage, Stage::Ended));
    assert_eq!(refusal(action), "none");

    let (_, action) = continue_update(Stage::Telling, UpdateEvent::Told(Err("gone".to_string())));
    assert_eq!(refusal(action), "gone");
    let (_, action) = continue_update(Stage::Telling, UpdateEvent::Told(Ok(json("{\"c\":1}"))));
    match action {
        UpdateAction::Answer(Ok(outcome)) => {
            assert_eq!(outcome.config, json("{\"c\":1}"));
            assert!(outcome.statuses.is_none());
        }
        other => panic!("{:?}", other),
    }
}

/// `[[...]]` of so many levels.
fn nested(levels: u64) -> Value {
    let mut v = Value::Array(Vec::new());
    for _ in 1..levels {
        v = Value::Array(vec![v]);
    }
    v
}

#[test]
fn settings_are_read_whatever_they_hold() {
    let servers = json("{\"a\":{\"timeout\":18446744073709551615}}");
    let held = "{\"zoom\":1.5,\"big\":1.7976931348623157e308,\"small\":[5e-324,{\"k\":-0.0,\"s\":\"t\"}]}";
    let text = settings_text(Some(held), servers.clone());
    assert_eq!(servers_section(Some(&text)), Some(servers.clone()));
    let document = json(&text);
    assert_eq!(document.get("zoom"), Some(&json("1.5")));
    assert_eq!(
        document.get("small").and_then(|v| v.get(1)).and_then(|v| v.get("s")),
        Some(&json("\"t\""))
    );

    let deep = serde_json::to_string(&nested(READ_DEPTH - 1)).unwrap();
    let text = settings_text(Some(&format!("{{\"deep\":{}}}", deep)), servers.clone());
    assert_eq!(servers_section(Some(&text)), Some(servers));

    let text = settings_text(None, nested(READ_DEPTH - 1));
    assert_eq!(servers_section(Some(&text)), Some(nested(READ_DEPTH - 1)));
    let text = settings_text(None, nested(READ_DEPTH));
    assert_eq!(servers_section(Some(&text)), None);
}

#[test]
fn requests_read_back() {
    let mut bridge: Bridge<()> = Bridge::new();
    let params = nested(READ_DEPTH - 1);
    let request = bridge.send("m", params.clone(), ());
    let message = json(request.line.trim_end());
    assert_eq!(message.get("id"), Some(&json("0")));
    assert_eq!(message.get("method"), Some(&json("\"m\"")));
    assert_eq!(message.get("params"), Some(&params));
}

#[test]
fn settings_keep_what_they_hold() {
    let servers = json("{\"a\":{\"command\":\"x\",\"disabled\":false}}");
    let text = settings_text(Some("{\"theme\":\"dark\",\"mcpServers\":1}"), servers.clone());
    assert_eq!(
        json(&text),
        json("{\"theme\":\"dark\",\"mcpServers\":{\"a\":{\"command\":\"x\",\"disabled\":false}}}")
    );
    assert!(text.contains("\n  \"theme\": \"dark\""));
    assert_eq!(servers_section(Some(&text)), Some(servers.clone()));

    for content in [None, Some("no json"), Some("{}")] {
        let text = settings_text(content, servers.clone());
        assert_eq!(servers_section(Some(&text)), Some(servers.clone()));
    }
    assert_eq!(settings_text(Some("[1]"), servers.clone()), "[\n  1\n]");
    assert_eq!(put_servers(Some(json("5")), servers), json("5"));
    assert_eq!(find_servers(&json("{\"mcpServers\":[-3]}")), Some(json("[-3]")));
    assert_eq!(find_servers(&json("[]")), None);
    let text = settings_text(Some("{\"zoom\":0.1,\"n\":-7}"), json("[null,true]"));
    assert_eq!(servers_section(Some(&text)), Some(json("[null,true]")));
    assert_eq!(json(&text).get("n"), Some(&json("-7")));
    assert_eq!(servers_section(None), None);
    assert_eq!(servers_section(Some("{}")), None);
    assert_eq!(servers_section(Some("[")), None);
}

#[test]
fn icon_is_decoded() {
    // Two points in one row: red, and (1, 2, 3).
    let file: [u8; 72] = [
        137, 80, 78, 71, 13, 10, 26, 10, 0, 0, 0, 13, 73, 72, 68, 82, 0, 0, 0, 2, 0, 0, 0, 1, 8, 2,
        0, 0, 0, 123, 64, 232, 221, 0, 0, 0, 15, 73, 68, 65, 84, 120, 156, 99, 248, 207, 192, 192,
        200, 196, 12, 0, 6, 11, 1, 6, 4, 11, 153, 45, 0, 0, 0, 0, 73, 69, 78, 68, 174, 66, 96, 130,
    ];
    let icon = window_icon(Some(&file)).unwrap();
    assert_eq!((icon.width, icon.height), (2, 1));
    assert_eq!(icon.rgba, vec![255, 0, 0, 255, 1, 2, 3, 255]);
    assert!(window_icon(Some(b"no picture")).is_none());
    assert!(window_icon(Some(&file[..20])).is_none());
    assert!(window_icon(Some(b"GIF89a no decoder for this one")).is_none());
    assert!(window_icon(None).is_none());
}

#[test]
fn output_is_read_step_by_step() {
    let mut bridge = connected(&["zeroth", "first", "second"]);
    let line = |text: &str| Output::Line(text.to_string());
    for text in ["", "noise", "{\"id\":9,\"result\":0}", "{\"id\":1}"] {
        assert!(matches!(
            read_bridge_stdout(&mut bridge, line(text)),
            OutputAction::Ignore
        ));
    }
    match read_bridge_stdout(&mut bridge, line("{\"id\":1,\"error\":{\"message\":\"m\"}}\n")) {
        OutputAction::Answer { waiter, outcome } => {
            assert_eq!((waiter, outcome), ("first", Err("m".to_string())))
        }
        other => panic!("{:?}", other),
    }
    assert!(matches!(
        read_bridge_stdout(&mut bridge, Output::Failed),
        OutputAction::Stop
    ));
    match read_bridge_stdout(&mut bridge, Output::Ended) {
        OutputAction::FailAll { waiters, error } => {
            assert_eq!(waiters.len(), 2);
            assert_eq!(waiters.get(&2), Some(&"second"));
            assert_eq!(error, "Bridge stdout closed, process died");
        }
        other => panic!("{:?}", other),
    }
    assert_eq!(bridge.hang_up().0.len(), 0);
}

#[test]
fn framed_messages_read_back() {
    let message = request_message(18446744073709551615, "a\nb", json("[-9223372036854775808,\"\\u0000é\"]"));
    let line = encode_line(&message);
    assert_eq!(json(&line[..line.len() - 1]), message);
}
