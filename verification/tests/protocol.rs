use narsil_mcp::expose::{expose_rejection, parse_expose_groups, ExposeGroup};
use narsil_mcp::mcp::{
    is_answered, method_of, parse_error_reply, resource_reply, screen_line, tool_error_response,
    tool_reply, ClientInfo, IndexBusy, JsonRpcRequest, JsonRpcResponse, McpServer, Method, Outcome,
    Payload, ScreenedLine, SessionState, ToolEntry, ToolFailure, JSONRPC_INDEX_BUSY,
    MAX_MESSAGE_SIZE, MCP_VERSION,
};

fn server(expose: Vec<ExposeGroup>) -> McpServer {
    McpServer::from_arc(None, None, expose, "1.2.3".to_string())
}

fn request(id: Option<&str>, method: &str, params: &str) -> JsonRpcRequest {
    JsonRpcRequest {
        id: id.map(|s| s.to_string()),
        method: method.to_string(),
        params: params.to_string(),
    }
}

fn respond(outcome: Outcome) -> JsonRpcResponse {
    match outcome {
        Outcome::Respond(r) => r,
        other => panic!("expected a response, got {other:?}"),
    }
}

fn prompt_text(r: &JsonRpcResponse) -> &str {
    match r.result.as_ref() {
        Some(Payload::PromptMessage { text, .. }) => text,
        other => panic!("expected a prompt, got {other:?}"),
    }
}

#[test]
fn test_expose_rejection_names_the_group_and_says_not_to_retry() {
    let msg = expose_rejection(&[ExposeGroup::Code, ExposeGroup::Git], "scan_security")
        .expect("a security tool must be refused when only code+git are exposed");

    assert!(msg.contains("scan_security"), "names the tool: {msg}");
    assert!(msg.contains("'security'"), "names the group: {msg}");
    assert!(
        msg.contains("do not retry"),
        "tells the caller to stop: {msg}"
    );
    assert!(msg.contains("--expose"), "says how to enable it: {msg}");
}

#[test]
fn test_expose_rejection_allows_exposed_and_base_tools() {
    let groups = [ExposeGroup::Code, ExposeGroup::Git];
    assert!(expose_rejection(&groups, "find_symbols").is_none());
    assert!(expose_rejection(&groups, "get_blame").is_none());
    assert!(expose_rejection(&groups, "list_repos").is_none());
}

#[test]
fn test_expose_rejection_is_inert_when_no_groups_selected() {
    assert!(expose_rejection(&[], "scan_security").is_none());
}

#[test]
fn test_expose_rejection_ignores_unknown_tools() {
    assert!(expose_rejection(&[ExposeGroup::Code], "no_such_tool").is_none());
}

#[test]
fn test_max_message_size_is_reasonable() {
    let size = MAX_MESSAGE_SIZE;
    assert_eq!(size, 10 * 1024 * 1024);
    assert!(size >= 1024 * 1024, "Should be at least 1 MB");
    assert!(size <= 100 * 1024 * 1024, "Should not exceed 100 MB");
}

#[test]
fn selecting_more_groups_refuses_no_more() {
    let few = [ExposeGroup::Code];
    let many = [ExposeGroup::Code, ExposeGroup::Security];
    assert!(expose_rejection(&few, "scan_security").is_some());
    assert!(expose_rejection(&many, "scan_security").is_none());
}

#[test]
fn group_names_are_parsed() {
    let names = vec!["code".to_string(), "git".to_string()];
    assert_eq!(
        parse_expose_groups(&names).unwrap(),
        vec![ExposeGroup::Code, ExposeGroup::Git]
    );
    let err = parse_expose_groups(&["nonsense".to_string()]).unwrap_err();
    assert!(err.contains("nonsense"), "{err}");
}

#[test]
fn test_mcp_server_preset_override() {
    let preset_override = Some("minimal".to_string());
    let overridden = McpServer::from_arc(
        Some("full".to_string()),
        preset_override,
        vec![],
        "0".to_string(),
    );
    assert_eq!(overridden.preset, Some("minimal".to_string()));

    let no_override: Option<String> = None;
    assert!(no_override.is_none());
    let plain = McpServer::from_arc(None, no_override, vec![], "0".to_string());
    assert!(plain.preset.is_none());
    let configured = McpServer::from_arc(Some("full".to_string()), None, vec![], "0".to_string());
    assert_eq!(configured.preset, Some("full".to_string()));
}

#[test]
fn index_busy_gets_its_own_error_code() {
    let busy = tool_error_response(
        Some("1".to_string()),
        &ToolFailure::Busy(IndexBusy {
            repo: "/repo".to_string(),
            indexed_repos: 3,
            total_repos: 5,
        }),
    );
    let error = busy.error.expect("IndexBusy is an error response");
    assert_eq!(error.code, JSONRPC_INDEX_BUSY);
    assert!(error.message.contains("EAGAIN"));
    assert!(
        error.message.contains("3/5 repos indexed"),
        "message should carry the progress counters: {}",
        error.message
    );

    let other = tool_error_response(
        Some("1".to_string()),
        &ToolFailure::Other("boom".to_string()),
    );
    assert_eq!(other.error.expect("still an error").code, -32000);
}

#[test]
fn test_prompts_list() {
    let reply = server(vec![]).handle_prompts_list(Some("1".to_string()));
    let prompts = match reply.result {
        Some(Payload::Prompts(list)) => list,
        other => panic!("expected prompts, got {other:?}"),
    };
    assert_eq!(prompts.len(), 2, "Should have 2 prompts");
    assert_eq!(prompts[0].name, "explain_codebase");
    assert_eq!(
        prompts[0].description,
        "Get an overview of a codebase's architecture and key components"
    );
    assert!(prompts[0].arguments.len() == 1);
    assert_eq!(prompts[0].arguments[0].name, "repo");
    assert_eq!(
        prompts[0].arguments[0].description,
        "Repository to explain"
    );
    assert!(prompts[0].arguments[0].required);
    assert_eq!(prompts[1].name, "find_implementation");
    assert_eq!(
        prompts[1].description,
        "Find where a specific feature or algorithm is implemented"
    );
    assert!(prompts[1].arguments.len() == 2);
    assert_eq!(prompts[1].arguments[0].description, "Repository to search");
    assert_eq!(prompts[1].arguments[1].name, "feature");
    assert_eq!(
        prompts[1].arguments[1].description,
        "Feature or algorithm to find"
    );
}

#[test]
fn test_prompts_get_explain_codebase() {
    let params = r#"{"name": "explain_codebase", "arguments": {"repo": "my-project"}}"#;
    let reply = server(vec![]).handle_prompts_get(Some("1".to_string()), params);
    assert!(prompt_text(&reply).contains("my-project"));
}

#[test]
fn test_prompts_get_find_implementation() {
    let params = r#"{"name": "find_implementation",
        "arguments": {"repo": "my-project", "feature": "authentication"}}"#;
    let reply = server(vec![]).handle_prompts_get(Some("1".to_string()), params);
    let text = prompt_text(&reply);
    assert!(text.contains("my-project"));
    assert!(text.contains("authentication"));
}

#[test]
fn test_prompts_get_missing_name() {
    let params = r#"{"arguments": {"repo": "my-project"}}"#;
    let reply = server(vec![]).handle_prompts_get(Some("1".to_string()), params);
    assert!(reply.result.is_none());
    assert_eq!(reply.error.unwrap().code, -32602);
}

#[test]
fn test_prompts_get_unknown_prompt() {
    let params = r#"{"name": "nonexistent_prompt", "arguments": {}}"#;
    let reply = server(vec![]).handle_prompts_get(Some("1".to_string()), params);
    let error = reply.error.unwrap();
    assert_eq!(error.code, -32602);
    assert_eq!(error.message, "Unknown prompt: nonexistent_prompt");
}

#[test]
fn test_prompts_get_default_arguments() {
    let params = r#"{"name": "explain_codebase"}"#;
    let reply = server(vec![]).handle_prompts_get(Some("1".to_string()), params);
    assert!(
        prompt_text(&reply).contains("<repository>"),
        "Should use default placeholder"
    );
}

#[test]
fn a_blank_line_is_passed_over_and_an_oversized_one_is_refused() {
    assert!(matches!(screen_line("   \t "), ScreenedLine::Blank));
    match screen_line("  {}  ") {
        ScreenedLine::Request(text) => assert_eq!(text, "{}"),
        other => panic!("{other:?}"),
    }
    let long = "x".repeat(MAX_MESSAGE_SIZE + 1);
    match screen_line(&long) {
        ScreenedLine::TooLarge(r) => assert_eq!(r.error.unwrap().code, -32600),
        other => panic!("{other:?}"),
    }
}

#[test]
fn only_requests_with_an_id_are_answered() {
    assert!(is_answered(&Some("7".to_string())));
    assert!(!is_answered(&None));
}

#[test]
fn an_unreadable_request_is_answered_under_its_own_id() {
    let reply = parse_error_reply(r#"{"id": 41, "method": 3}"#, "bad method").unwrap();
    assert_eq!(reply.id, Some("41".to_string()));
    assert_eq!(reply.error.unwrap().code, -32700);
    let text = parse_error_reply(r#"{"id": "a\"b"}"#, "no method").unwrap();
    assert_eq!(text.id, Some(r#""a\"b""#.to_string()));
    assert!(parse_error_reply(r#"{"id": null}"#, "no method").is_none());
    assert!(parse_error_reply("not json", "no json").is_none());
}

#[test]
fn methods_are_named() {
    assert_eq!(method_of("initialize"), Some(Method::Initialize));
    assert_eq!(method_of("tools/call"), Some(Method::ToolsCall));
    assert_eq!(method_of("prompts/get"), Some(Method::PromptsGet));
    assert_eq!(method_of("tools/other"), None);
}

#[test]
fn initializing_remembers_the_client() {
    let s = server(vec![]);
    let mut session = SessionState::new();
    let params = r#"{"clientInfo": {"name": "editor", "version": "9"}}"#;
    let r = respond(s.dispatch(
        request(Some("1"), "initialize", params),
        &mut session,
        &[],
        &[],
    ));
    match r.result {
        Some(Payload::Initialize {
            protocol_version,
            server_name,
            server_version,
        }) => {
            assert_eq!(protocol_version, MCP_VERSION);
            assert_eq!(server_name, "narsil-mcp");
            assert_eq!(server_version, "1.2.3");
        }
        other => panic!("{other:?}"),
    }
    let client: ClientInfo = session.client_info().unwrap();
    assert_eq!(client.name, "editor");
    assert_eq!(client.version, Some("9".to_string()));
}

#[test]
fn an_unknown_method_is_an_error() {
    let mut session = SessionState::new();
    let r = respond(server(vec![]).dispatch(
        request(Some("5"), "no/such", "{}"),
        &mut session,
        &[],
        &[],
    ));
    let error = r.error.unwrap();
    assert_eq!(error.code, -32601);
    assert!(error.message.contains("no/such"));
    assert!(r.result.is_none());
    assert_eq!(r.id, Some("5".to_string()));
    assert_eq!(r.jsonrpc, "2.0");
}

#[test]
fn a_tool_call_goes_on_to_its_handler() {
    let mut session = SessionState::new();
    let call = server(vec![]).dispatch(
        request(Some("2"), "tools/call", r#"{"name": "get_file"}"#),
        &mut session,
        &[],
        &[],
    );
    match call {
        Outcome::CallTool { id, name } => {
            assert_eq!(id, Some("2".to_string()));
            assert_eq!(name, "get_file");
        }
        other => panic!("{other:?}"),
    }
}

#[test]
fn a_refused_tool_never_reaches_its_handler() {
    let mut session = SessionState::new();
    let call = server(vec![ExposeGroup::Code]).dispatch(
        request(Some("2"), "tools/call", r#"{"name": "scan_security"}"#),
        &mut session,
        &[],
        &[],
    );
    let r = respond(call);
    assert!(r.error.unwrap().message.contains("scan_security"));
}

#[test]
fn the_tool_list_keeps_enabled_and_exposed_tools() {
    let entry = |name: &str| ToolEntry {
        name: name.to_string(),
        description: "d".to_string(),
        input_schema: "{}".to_string(),
    };
    let known = vec![entry("get_file"), entry("scan_security"), entry("get_blame")];
    let enabled: Vec<String> = vec!["get_file".to_string(), "get_blame".to_string()];
    let r = server(vec![]).handle_tools_list(None, &enabled, &known);
    match r.result {
        Some(Payload::Tools(list)) => {
            let names: Vec<&str> = list.iter().map(|t| t.name.as_str()).collect();
            assert_eq!(names, vec!["get_file", "get_blame"]);
        }
        other => panic!("{other:?}"),
    }
}

#[test]
fn reading_a_resource_names_its_uri() {
    let mut session = SessionState::new();
    let s = server(vec![]);
    let out = s.dispatch(
        request(Some("3"), "resources/read", r#"{"uri": "file:///r/a.c"}"#),
        &mut session,
        &[],
        &[],
    );
    match out {
        Outcome::ReadResource { uri, .. } => assert_eq!(uri, "file:///r/a.c"),
        other => panic!("{other:?}"),
    }
    let ok = resource_reply(None, "u".to_string(), Ok("text".to_string()));
    assert!(matches!(ok.result, Some(Payload::ResourceText { .. })));
    let err = resource_reply(None, "u".to_string(), Err("gone".to_string()));
    assert!(err.error.unwrap().message.contains("gone"));
}

#[test]
fn a_response_is_a_result_or_an_error() {
    let ok = tool_reply(Some("1".to_string()), Ok("fine".to_string()));
    assert!(ok.error.is_none());
    assert!(matches!(ok.result, Some(Payload::ToolText(t)) if t == "fine"));
    let bad = tool_reply(
        Some("1".to_string()),
        Err(ToolFailure::Panicked("index out of bounds".to_string())),
    );
    assert!(bad.result.is_none());
    assert!(bad.error.unwrap().message.contains("index out of bounds"));
}

#[test]
fn a_line_is_answered_when_it_asks_to_be() {
    let s = server(vec![]);
    let mut session = SessionState::new();
    let asked = s.handle_line(
        "{}",
        Ok(request(Some("1"), "prompts/list", "{}")),
        &mut session,
        &[],
        &[],
    );
    assert!(asked.replies);
    let notified = s.handle_line(
        "{}",
        Ok(request(None, "prompts/list", "{}")),
        &mut session,
        &[],
        &[],
    );
    assert!(!notified.replies);
    let broken = s.handle_line(
        r#"{"id": 3}"#,
        Err("missing method".to_string()),
        &mut session,
        &[],
        &[],
    );
    assert!(broken.replies);
}
