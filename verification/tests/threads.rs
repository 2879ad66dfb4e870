use zed_context_cleaner::agent::{drop_redacted_thinking, responds_with_text};
use zed_context_cleaner::attachments::{clean_user_message, shrink_attachment};
use zed_context_cleaner::clean::{clean_thread, collect_user_ids, try_clean_thread};
use zed_context_cleaner::config::CleanConfig;
use zed_context_cleaner::dedup::{compute_duplicate_read_file_ids, extract_read_file_path};
use zed_context_cleaner::json::JsonValue;
use zed_context_cleaner::protect::compute_protected_indices;
use zed_context_cleaner::str_map::StrMap;
use zed_context_cleaner::types::{
    AgentContent, AgentMessage, DbThread, Message, ThinkingBlock, TokenUsage, ToolResult,
    ToolUseBlock, UserContent, UserMessage,
};
use zed_context_cleaner::usage::{recalculate_cumulative, sum_usage};

fn text(s: &str) -> JsonValue {
    JsonValue::Text(s.to_string())
}

fn object(members: Vec<(&str, JsonValue)>) -> JsonValue {
    JsonValue::Object(members.into_iter().map(|(k, v)| (k.to_string(), v)).collect())
}

fn user(id: &str) -> Message {
    Message::User {
        user: UserMessage {
            id: id.to_string(),
            content: vec![UserContent::Text { text: "question".to_string() }],
        },
    }
}

fn agent(content: Vec<AgentContent>) -> Message {
    Message::Agent { agent: AgentMessage { content, tool_results: None, reasoning_details: None } }
}

fn reply() -> Message {
    agent(vec![AgentContent::Text("answer".to_string())])
}

fn other() -> Message {
    Message::Other(text("Resume"))
}

fn call(id: &str, name: &str, input: Option<JsonValue>) -> AgentContent {
    AgentContent::ToolUse(ToolUseBlock {
        id: id.to_string(),
        name: name.to_string(),
        raw_input: Some("raw".to_string()),
        input,
        is_input_complete: Some(true),
        thought_signature: Some(text("signature")),
    })
}

fn read(id: &str, path: &str) -> AgentContent {
    call(id, "read_file", Some(object(vec![("path", text(path))])))
}

fn redacted() -> AgentContent {
    AgentContent::RedactedThinking(object(vec![("data", text("secret"))]))
}

fn thinking() -> AgentContent {
    AgentContent::Thinking(ThinkingBlock { text: "hm".to_string(), signature: None })
}

fn usage(input: u64) -> TokenUsage {
    TokenUsage {
        input_tokens: Some(input),
        output_tokens: None,
        cache_creation_input_tokens: Some(1),
        cache_read_input_tokens: Some(2),
    }
}

fn thread(messages: Vec<Message>) -> DbThread {
    DbThread {
        title: Some("Title".to_string()),
        version: Some("0.3".to_string()),
        updated_at: None,
        messages,
        detailed_summary: Some(text("summary")),
        initial_project_snapshot: Some(object(vec![])),
        cumulative_token_usage: None,
        request_token_usage: None,
        model: Some(text("model")),
        profile: None,
        subagent_context: Some(JsonValue::Null),
        imported: Some(JsonValue::Bool(true)),
        speed: None,
        thinking_enabled: Some(JsonValue::Bool(false)),
        thinking_effort: None,
        draft_prompt: None,
        ui_scroll_position: Some(JsonValue::unsigned(3)),
    }
}

fn keep(n: usize) -> CleanConfig {
    CleanConfig { keep_last_n_dialogs: n, ..CleanConfig::default() }
}

fn blocks(m: &Message) -> Vec<&'static str> {
    match m {
        Message::Agent { agent } => agent
            .content
            .iter()
            .map(|c| match c {
                AgentContent::Thinking(_) => "thinking",
                AgentContent::RedactedThinking(_) => "redacted",
                AgentContent::Text(_) => "text",
                AgentContent::ToolUse(_) => "call",
            })
            .collect(),
        _ => vec!["no agent"],
    }
}

fn sorted(zone: std::collections::HashSet<usize>) -> Vec<usize> {
    let mut list: Vec<usize> = zone.into_iter().collect();
    list.sort();
    list
}

#[test]
fn the_last_dialogs_are_protected() {
    let m = vec![user("a"), reply(), other(), user("b"), user("c"), reply(), reply(), user("d")];
    assert_eq!(sorted(compute_protected_indices(&m, 0)), Vec::<usize>::new());
    assert_eq!(sorted(compute_protected_indices(&m, 1)), vec![4, 5]);
    assert_eq!(sorted(compute_protected_indices(&m, 2)), vec![0, 1, 4, 5]);
    assert_eq!(sorted(compute_protected_indices(&m, 99)), vec![0, 1, 4, 5]);
    assert_eq!(sorted(compute_protected_indices(&[], 5)), Vec::<usize>::new());
}

#[test]
fn only_the_last_read_of_a_path_stays() {
    let m = vec![
        agent(vec![read("1", "a"), read("2", "b"), read("3", "a")]),
        user("u"),
        agent(vec![read("4", "a"), call("5", "grep", Some(object(vec![("path", text("a"))])))]),
        agent(vec![read("6", "a")]),
    ];
    let none = std::collections::HashSet::new();
    let ids = compute_duplicate_read_file_ids(&m, &none);
    for (id, gone) in
        [("1", true), ("2", false), ("3", true), ("4", true), ("5", false), ("6", false)]
    {
        assert_eq!(ids.contains(id), gone, "{}", id);
    }
    // The protected dialog does not take part.
    let zone = compute_protected_indices(&m, 1);
    let ids = compute_duplicate_read_file_ids(&m, &zone);
    assert!(ids.contains("1") && ids.contains("3"));
    assert!(!ids.contains("4") && !ids.contains("6"));
}

#[test]
fn the_path_of_a_read() {
    let path = |input: Option<JsonValue>| match call("1", "read_file", input) {
        AgentContent::ToolUse(t) => extract_read_file_path(&t),
        _ => panic!("expected a call"),
    };
    assert_eq!(path(Some(object(vec![("path", text("src/lib.rs"))]))), Some("src/lib.rs".into()));
    assert_eq!(path(Some(object(vec![("path", JsonValue::unsigned(1))]))), None);
    assert_eq!(path(Some(text("path"))), None);
    assert_eq!(path(None), None);
}

#[test]
fn stripped_calls_have_an_empty_object_as_input() {
    let cleaned = clean_thread(
        &thread(vec![agent(vec![call("1", "grep", Some(text("input")))])]),
        &keep(0),
    );
    match &cleaned.messages[0] {
        Message::Agent { agent } => match &agent.content[0] {
            AgentContent::ToolUse(t) => {
                assert_eq!(t.id, "1");
                assert_eq!(t.name, "grep");
                assert_eq!(t.raw_input.as_deref(), Some("{}"));
                assert_eq!(t.input.as_ref().unwrap().to_text(), "{}");
                assert_eq!(t.is_input_complete, Some(true));
                assert_eq!(t.thought_signature.as_ref().unwrap().to_text(), "\"signature\"");
            }
            _ => panic!("expected a call"),
        },
        _ => panic!("expected an agent message"),
    }
}

#[test]
fn calls_stay_whole_where_inputs_are_not_stripped() {
    let config = CleanConfig { strip_tool_inputs: false, ..keep(0) };
    let cleaned =
        clean_thread(&thread(vec![agent(vec![call("1", "grep", Some(text("input")))])]), &config);
    match &cleaned.messages[0] {
        Message::Agent { agent } => match &agent.content[0] {
            AgentContent::ToolUse(t) => {
                assert_eq!(t.raw_input.as_deref(), Some("raw"));
                assert_eq!(t.input.as_ref().unwrap().to_text(), "\"input\"");
                assert!(t.thought_signature.is_some());
            }
            _ => panic!("expected a call"),
        },
        _ => panic!("expected an agent message"),
    }
}

#[test]
fn redacted_thinking_goes_everywhere_when_asked() {
    let t = thread(vec![
        agent(vec![redacted(), AgentContent::Text("old".into())]),
        user("u"),
        agent(vec![thinking(), redacted(), AgentContent::Text("new".into()), redacted()]),
    ]);
    let cleaned = clean_thread(&t, &keep(1));
    assert_eq!(blocks(&cleaned.messages[0]), vec!["text"]);
    assert_eq!(blocks(&cleaned.messages[2]), vec!["thinking", "redacted", "text", "redacted"]);
    let config = CleanConfig { fix_redacted_thinking: true, ..keep(1) };
    let cleaned = clean_thread(&t, &config);
    assert_eq!(blocks(&cleaned.messages[0]), vec!["text"]);
    assert_eq!(blocks(&cleaned.messages[2]), vec!["thinking", "text"]);
}

#[test]
fn dropping_redacted_thinking_keeps_the_rest_of_a_message() {
    let m = AgentMessage {
        content: vec![redacted(), call("1", "grep", None)],
        tool_results: Some(StrMap::new()),
        reasoning_details: Some(text("details")),
    };
    let kept = drop_redacted_thinking(&m);
    assert_eq!(kept.content.len(), 1);
    assert!(kept.tool_results.is_some());
    assert_eq!(kept.reasoning_details.unwrap().to_text(), "\"details\"");
    assert!(!responds_with_text(&m));
}

#[test]
fn tool_only_messages_go_when_asked() {
    let messages = || {
        vec![
            agent(vec![call("1", "grep", None)]),
            agent(vec![call("2", "grep", None), AgentContent::Text("text".into())]),
            other(),
            agent(vec![]),
            user("u"),
            agent(vec![call("3", "grep", None)]),
        ]
    };
    let cleaned = clean_thread(&thread(messages()), &keep(1));
    assert_eq!(cleaned.messages.len(), 6);
    let config = CleanConfig { remove_tool_only_messages: true, ..keep(1) };
    let cleaned = clean_thread(&thread(messages()), &config);
    let kinds: Vec<Vec<&str>> = cleaned.messages.iter().map(blocks).collect();
    assert_eq!(
        kinds,
        vec![vec!["call", "text"], vec!["no agent"], vec!["no agent"], vec!["call"]]
    );
}

#[test]
fn other_fields_of_a_thread_stay() {
    let cleaned = clean_thread(&thread(vec![user("u"), other()]), &keep(0));
    assert_eq!(cleaned.title.as_deref(), Some("Title"));
    assert_eq!(cleaned.version.as_deref(), Some("0.3"));
    assert!(cleaned.updated_at.is_none());
    assert_eq!(cleaned.detailed_summary.unwrap().to_text(), "\"summary\"");
    assert!(cleaned.initial_project_snapshot.is_none());
    assert_eq!(cleaned.model.unwrap().to_text(), "\"model\"");
    assert!(cleaned.profile.is_none());
    assert!(cleaned.subagent_context.unwrap().is_null());
    assert_eq!(cleaned.imported.unwrap().to_text(), "true");
    assert_eq!(cleaned.thinking_enabled.unwrap().to_text(), "false");
    assert_eq!(cleaned.ui_scroll_position.unwrap().to_text(), "3");
    match &cleaned.messages[1] {
        Message::Other(v) => assert_eq!(v.to_text(), "\"Resume\""),
        _ => panic!("expected another message"),
    }
}

#[test]
fn usage_of_requests_without_a_message_goes() {
    let mut t = thread(vec![user("a"), reply(), user("b")]);
    let mut record = StrMap::new();
    record.insert("a".to_string(), usage(10));
    record.insert("gone".to_string(), usage(1000));
    record.insert("b".to_string(), usage(20));
    t.request_token_usage = Some(record);
    let cleaned = clean_thread(&t, &keep(0));
    let left = cleaned.request_token_usage.unwrap();
    assert_eq!(left.len(), 2);
    assert_eq!(left.key_at(0), "a");
    assert_eq!(left.key_at(1), "b");
    assert_eq!(left.get("b").unwrap().input_tokens, Some(20));
    assert_eq!(
        cleaned.cumulative_token_usage.unwrap().to_text(),
        "{\"cache_creation_input_tokens\":2,\"cache_read_input_tokens\":4,\
         \"input_tokens\":30,\"output_tokens\":0}"
    );
}

#[test]
fn usage_is_never_absent_after_a_cleanup() {
    let cleaned = clean_thread(&thread(vec![]), &keep(0));
    assert_eq!(cleaned.request_token_usage.unwrap().len(), 0);
    assert_eq!(cleaned.cumulative_token_usage.unwrap().get("input_tokens").unwrap().to_text(), "0");
}

#[test]
fn usage_that_does_not_fit_is_refused() {
    let mut t = thread(vec![user("a"), user("b")]);
    let mut record = StrMap::new();
    record.insert("a".to_string(), usage(u64::MAX));
    record.insert("b".to_string(), usage(1));
    assert!(sum_usage(&record).is_none());
    t.request_token_usage = Some(record);
    assert!(try_clean_thread(&t, &keep(0)).is_none());
    let mut t = thread(vec![user("a")]);
    let mut record = StrMap::new();
    record.insert("a".to_string(), usage(u64::MAX));
    assert_eq!(sum_usage(&record), Some((u64::MAX, 0, 1, 2)));
    assert_eq!(
        recalculate_cumulative(&record).get("input_tokens").unwrap().to_text(),
        u64::MAX.to_string()
    );
    t.request_token_usage = Some(record);
    assert!(try_clean_thread(&t, &keep(0)).is_some());
}

#[test]
fn user_ids_are_collected() {
    let ids = collect_user_ids(&vec![user("a"), reply(), other(), user("b")]);
    assert!(ids.contains("a") && ids.contains("b") && !ids.contains("c"));
}

#[test]
fn large_images_are_replaced_by_a_note() {
    let image = |source: String| object(vec![("Image", object(vec![("source", text(&source))]))]);
    let config = CleanConfig { large_image_threshold: 100, ..CleanConfig::default() };
    let cleaned = |v: JsonValue| {
        let m = UserMessage { id: "u".to_string(), content: vec![UserContent::Other(v)] };
        match &clean_user_message(&m, &config).content[0] {
            UserContent::Other(v) => v.to_text(),
            _ => panic!("expected another value"),
        }
    };
    // The size is that of the JSON text {"source":"..."}.
    assert_eq!(
        cleaned(image(format!("iVBOR{}", "A".repeat(90)))),
        "{\"Image\":{\"source\":\"[REMOVED: PNG image, original 108 B base64]\"}}"
    );
    assert_eq!(
        cleaned(image(format!("/9j/{}", "A".repeat(2000)))),
        "{\"Image\":{\"source\":\"[REMOVED: JPEG image, original 2.0 KB base64]\"}}"
    );
    assert_eq!(
        cleaned(image(format!("R0lG{}", "A".repeat(100)))),
        "{\"Image\":{\"source\":\"[REMOVED: GIF image, original 117 B base64]\"}}"
    );
    assert_eq!(
        cleaned(image("B".repeat(100))),
        "{\"Image\":{\"source\":\"[REMOVED: image, original 113 B base64]\"}}"
    );
    let small = image("A".repeat(87));
    assert_eq!(cleaned(small.clone()), small.to_text());
}

#[test]
fn large_mentions_keep_their_uri() {
    let mention = |n: usize| {
        object(vec![(
            "Mention",
            object(vec![("uri", text("file:///a")), ("content", text(&"x".repeat(n)))]),
        )])
    };
    assert_eq!(
        shrink_attachment(&mention(101), 0, 100).to_text(),
        "{\"Mention\":{\"content\":\"[CONTENT TRUNCATED: original 101 B]\",\"uri\":\"file:///a\"}}"
    );
    assert_eq!(shrink_attachment(&mention(100), 0, 100).to_text(), mention(100).to_text());
    let bare = object(vec![("Mention", object(vec![("content", text(&"x".repeat(9)))]))]);
    assert_eq!(
        shrink_attachment(&bare, 0, 3).to_text(),
        "{\"Mention\":{\"content\":\"[CONTENT TRUNCATED: original 9 B]\",\"uri\":null}}"
    );
    assert_eq!(shrink_attachment(&text("plain"), 99, 3).to_text(), "\"plain\"");
}

#[test]
fn attachments_stay_where_the_settings_keep_them() {
    let big = object(vec![("Image", text(&"A".repeat(20_000)))]);
    let m = || {
        vec![Message::User {
            user: UserMessage {
                id: "u".to_string(),
                content: vec![UserContent::Other(big.clone())],
            },
        }]
    };
    let size = |t: DbThread| match &t.messages[0] {
        Message::User { user } => match &user.content[0] {
            UserContent::Other(v) => v.to_text().len(),
            _ => 0,
        },
        _ => 0,
    };
    assert!(size(clean_thread(&thread(m()), &keep(0))) < 100);
    let config = CleanConfig { remove_large_images: false, ..keep(0) };
    assert!(size(clean_thread(&thread(m()), &config)) > 20_000);
}

#[test]
fn a_protected_message_stays_as_it_is() {
    let mut results = StrMap::new();
    results.insert(
        "k".to_string(),
        ToolResult {
            tool_use_id: "k".to_string(),
            tool_name: "terminal".to_string(),
            is_error: false,
            content: Some(text(&"x".repeat(9000))),
            output: Some(text("out")),
        },
    );
    let t = thread(vec![
        user("u"),
        Message::Agent {
            agent: AgentMessage {
                content: vec![thinking(), call("k", "terminal", Some(text("in")))],
                tool_results: Some(results),
                reasoning_details: Some(text("details")),
            },
        },
    ]);
    let cleaned = clean_thread(&t, &keep(1));
    match &cleaned.messages[1] {
        Message::Agent { agent } => {
            assert_eq!(blocks(&cleaned.messages[1]), vec!["thinking", "call"]);
            assert!(agent.reasoning_details.is_some());
            let r = agent.tool_results.as_ref().unwrap().get("k").unwrap();
            assert_eq!(r.content.as_ref().unwrap().as_str().unwrap().len(), 9000);
            assert!(r.output.is_some());
        }
        _ => panic!("expected an agent message"),
    }
}

#[test]
fn a_cleaned_thread_is_protected_as_before() {
    let m = || {
        vec![
            user("a"),
            agent(vec![thinking()]),
            other(),
            user("b"),
            agent(vec![call("1", "grep", None), redacted()]),
            user("c"),
        ]
    };
    let cleaned = clean_thread(&thread(m()), &keep(1));
    for n in 0..4 {
        assert_eq!(
            sorted(compute_protected_indices(&cleaned.messages, n)),
            sorted(compute_protected_indices(&m(), n))
        );
    }
}

#[test]
fn blocks_are_clean_after_one_cleanup() {
    let m = vec![agent(vec![
        thinking(),
        AgentContent::Text("a".into()),
        call("1", "grep", Some(text("in"))),
        redacted(),
    ])];
    let once = clean_thread(&thread(m), &keep(0));
    let twice = clean_thread(&once, &keep(0));
    assert_eq!(blocks(&once.messages[0]), vec!["text", "call"]);
    assert_eq!(blocks(&twice.messages[0]), vec!["text", "call"]);
}

#[test]
fn a_second_cleanup_can_cut_a_notice() {
    let mut results = StrMap::new();
    results.insert(
        "k".to_string(),
        ToolResult {
            tool_use_id: "k".to_string(),
            tool_name: "terminal".to_string(),
            is_error: false,
            content: Some(text(&"x".repeat(2500))),
            output: None,
        },
    );
    let t = thread(vec![Message::Agent {
        agent: AgentMessage {
            content: vec![],
            tool_results: Some(results),
            reasoning_details: None,
        },
    }]);
    let content = |t: &DbThread| match &t.messages[0] {
        Message::Agent { agent } => {
            let r = agent.tool_results.as_ref().unwrap().get("k").unwrap();
            r.content.as_ref().unwrap().as_str().unwrap().to_string()
        }
        _ => panic!("expected an agent message"),
    };
    let once = clean_thread(&t, &keep(0));
    assert!(content(&once).ends_with("[TRUNCATED: 500 bytes omitted]"));
    let twice = clean_thread(&once, &keep(0));
    assert!(content(&twice).ends_with("[TRUNCATED: 35 bytes omitted]"));
}
