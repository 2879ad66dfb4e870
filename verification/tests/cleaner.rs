use zed_context_cleaner::clean::clean_thread;
use zed_context_cleaner::config::CleanConfig;
use zed_context_cleaner::json::JsonValue;
use zed_context_cleaner::str_map::StrMap;
use zed_context_cleaner::types::{
    AgentContent, AgentMessage, DbThread, Message, ThinkingBlock, TokenUsage, ToolResult,
    ToolUseBlock, UserContent, UserMessage,
};
use zed_context_cleaner::usage::recalculate_cumulative;

fn text(s: &str) -> JsonValue {
    JsonValue::Text(s.to_string())
}

fn object(members: Vec<(&str, JsonValue)>) -> JsonValue {
    JsonValue::Object(members.into_iter().map(|(k, v)| (k.to_string(), v)).collect())
}

fn make_user(id: &str) -> Message {
    Message::User {
        user: UserMessage {
            id: id.to_string(),
            content: vec![UserContent::Text { text: "hello".to_string() }],
        },
    }
}

fn make_agent_with_thinking(thinking_text: &str) -> Message {
    Message::Agent {
        agent: AgentMessage {
            content: vec![
                AgentContent::Thinking(ThinkingBlock {
                    text: thinking_text.to_string(),
                    signature: Some("sig".to_string()),
                }),
                AgentContent::Text("response".to_string()),
            ],
            tool_results: None,
            reasoning_details: Some(object(vec![("thinking", JsonValue::Bool(true))])),
        },
    }
}

fn make_agent_with_tool_result(tool_name: &str, content: &str) -> Message {
    let tool_use_id = format!("tu_{}", tool_name);
    let mut tr = StrMap::new();
    tr.insert(
        tool_use_id.clone(),
        ToolResult {
            tool_use_id: tool_use_id.clone(),
            tool_name: tool_name.to_string(),
            is_error: false,
            content: Some(text(content)),
            output: None,
        },
    );
    Message::Agent {
        agent: AgentMessage {
            content: vec![
                AgentContent::Text("I'll run a tool".to_string()),
                AgentContent::ToolUse(ToolUseBlock {
                    id: tool_use_id,
                    name: tool_name.to_string(),
                    raw_input: None,
                    input: None,
                    is_input_complete: Some(true),
                    thought_signature: None,
                }),
            ],
            tool_results: Some(tr),
            reasoning_details: None,
        },
    }
}

fn make_agent_with_read_file(tool_use_id: &str, path: &str, content: &str) -> Message {
    let mut tr = StrMap::new();
    tr.insert(
        tool_use_id.to_string(),
        ToolResult {
            tool_use_id: tool_use_id.to_string(),
            tool_name: "read_file".to_string(),
            is_error: false,
            content: Some(text(content)),
            output: None,
        },
    );
    Message::Agent {
        agent: AgentMessage {
            content: vec![
                AgentContent::Text("reading file".to_string()),
                AgentContent::ToolUse(ToolUseBlock {
                    id: tool_use_id.to_string(),
                    name: "read_file".to_string(),
                    raw_input: None,
                    input: Some(object(vec![("path", text(path))])),
                    is_input_complete: Some(true),
                    thought_signature: None,
                }),
            ],
            tool_results: Some(tr),
            reasoning_details: None,
        },
    }
}

fn make_thread(messages: Vec<Message>) -> DbThread {
    let mut request_token_usage = StrMap::new();
    for msg in &messages {
        if let Message::User { user: u } = msg {
            request_token_usage.insert(
                u.id.clone(),
                TokenUsage {
                    input_tokens: Some(100),
                    output_tokens: Some(50),
                    cache_creation_input_tokens: Some(10),
                    cache_read_input_tokens: Some(5),
                },
            );
        }
    }
    DbThread {
        title: Some("Test Thread".to_string()),
        version: Some("1".to_string()),
        updated_at: Some("2025-01-01".to_string()),
        messages,
        detailed_summary: None,
        initial_project_snapshot: Some(object(vec![(
            "files",
            JsonValue::Array(vec![text("a.rs"), text("b.rs")]),
        )])),
        cumulative_token_usage: Some(object(vec![("input_tokens", JsonValue::unsigned(200))])),
        request_token_usage: Some(request_token_usage),
        model: None,
        profile: None,
        subagent_context: None,
        imported: None,
        speed: None,
        thinking_enabled: None,
        thinking_effort: None,
        draft_prompt: None,
        ui_scroll_position: None,
    }
}

fn config_keep_0() -> CleanConfig {
    CleanConfig { keep_last_n_dialogs: 0, ..Default::default() }
}

fn agent_of(msg: &Message) -> &AgentMessage {
    match msg {
        Message::Agent { agent } => agent,
        _ => panic!("Expected Agent message"),
    }
}

fn number(v: &JsonValue, key: &str) -> u64 {
    match v.get(key) {
        Some(JsonValue::Num(n)) => n.as_u64().unwrap(),
        _ => panic!("no number under {}", key),
    }
}

#[test]
fn test_thinking_removed() {
    let thread = make_thread(vec![make_user("u1"), make_agent_with_thinking("deep thoughts")]);
    let cleaned = clean_thread(&thread, &config_keep_0());

    let agent = agent_of(&cleaned.messages[1]);
    for c in &agent.content {
        assert!(!matches!(c, AgentContent::Thinking(_)), "Thinking should be removed");
        assert!(
            !matches!(c, AgentContent::RedactedThinking(_)),
            "RedactedThinking should be removed"
        );
    }
    assert!(agent.content.iter().any(|c| matches!(c, AgentContent::Text(_))));
}

#[test]
fn test_thinking_preserved_in_protected() {
    let thread = make_thread(vec![make_user("u1"), make_agent_with_thinking("deep thoughts")]);
    let config = CleanConfig { keep_last_n_dialogs: 10, ..Default::default() };
    let cleaned = clean_thread(&thread, &config);

    let agent = agent_of(&cleaned.messages[1]);
    assert!(
        agent.content.iter().any(|c| matches!(c, AgentContent::Thinking(_))),
        "Thinking should be preserved in protected messages"
    );
}

#[test]
fn test_tool_result_truncated() {
    let long_content = "x".repeat(5000);
    let thread = make_thread(vec![
        make_user("u1"),
        make_agent_with_tool_result("terminal", &long_content),
    ]);
    let cleaned = clean_thread(&thread, &config_keep_0());

    let agent = agent_of(&cleaned.messages[1]);
    let tr = agent.tool_results.as_ref().unwrap();
    let result = tr.value_at(0);
    let content_str = result.content.as_ref().unwrap().as_str().unwrap();
    assert!(content_str.len() < long_content.len(), "Content should be truncated");
    assert!(content_str.contains("[TRUNCATED:"), "Should contain truncation marker");
}

#[test]
fn test_preserve_tools_not_truncated() {
    let long_content = "x".repeat(50000);
    let thread = make_thread(vec![
        make_user("u1"),
        make_agent_with_tool_result("create_directory", &long_content),
    ]);
    let cleaned = clean_thread(&thread, &config_keep_0());

    let agent = agent_of(&cleaned.messages[1]);
    let tr = agent.tool_results.as_ref().unwrap();
    let result = tr.value_at(0);
    let content_str = result.content.as_ref().unwrap().as_str().unwrap();
    assert_eq!(
        content_str.len(),
        long_content.len(),
        "Preserve tools should not be truncated"
    );
}

#[test]
fn test_duplicate_read_file() {
    let thread = make_thread(vec![
        make_user("u1"),
        make_agent_with_read_file("rf1", "src/main.rs", "first read content"),
        make_user("u2"),
        make_agent_with_read_file("rf2", "src/main.rs", "second read content"),
        make_user("u3"),
        make_agent_with_read_file("rf3", "src/main.rs", "third read content"),
    ]);
    let cleaned = clean_thread(&thread, &config_keep_0());

    let content = |idx: usize, id: &str| -> String {
        let agent = agent_of(&cleaned.messages[idx]);
        let result = agent.tool_results.as_ref().unwrap().get(id).unwrap();
        result.content.as_ref().unwrap().as_str().unwrap().to_string()
    };
    assert!(
        content(1, "rf1").contains("[DUPLICATE READ_FILE RESULT REMOVED"),
        "First duplicate should be replaced"
    );
    assert!(
        content(3, "rf2").contains("[DUPLICATE READ_FILE RESULT REMOVED"),
        "Second duplicate should be replaced"
    );
    assert_eq!(content(5, "rf3"), "third read content", "Last read_file should be preserved");
}

#[test]
fn test_token_usage_recalculated() {
    let mut request_usage = StrMap::new();
    request_usage.insert(
        "u1".to_string(),
        TokenUsage {
            input_tokens: Some(100),
            output_tokens: Some(50),
            cache_creation_input_tokens: Some(10),
            cache_read_input_tokens: Some(5),
        },
    );
    request_usage.insert(
        "u2".to_string(),
        TokenUsage {
            input_tokens: Some(200),
            output_tokens: Some(75),
            cache_creation_input_tokens: None,
            cache_read_input_tokens: Some(15),
        },
    );

    let cumulative = recalculate_cumulative(&request_usage);
    assert_eq!(number(&cumulative, "input_tokens"), 300);
    assert_eq!(number(&cumulative, "output_tokens"), 125);
    assert_eq!(number(&cumulative, "cache_creation_input_tokens"), 10);
    assert_eq!(number(&cumulative, "cache_read_input_tokens"), 20);
}

#[test]
fn test_initial_snapshot_nulled() {
    let thread = make_thread(vec![make_user("u1"), make_agent_with_thinking("think")]);
    assert!(thread.initial_project_snapshot.is_some());

    let cleaned = clean_thread(&thread, &config_keep_0());
    assert!(
        cleaned.initial_project_snapshot.is_none(),
        "initial_project_snapshot should be set to None"
    );
}

#[test]
fn test_reasoning_details_removed() {
    let thread = make_thread(vec![make_user("u1"), make_agent_with_thinking("think")]);
    assert!(agent_of(&thread.messages[1]).reasoning_details.is_some());

    let cleaned = clean_thread(&thread, &config_keep_0());
    assert!(
        agent_of(&cleaned.messages[1]).reasoning_details.is_none(),
        "reasoning_details should be removed from non-protected messages"
    );
}
