use zed_context_cleaner::analysis::{analyze_thread, try_analyze_thread, CategoryTally};
use zed_context_cleaner::clean::clean_thread;
use zed_context_cleaner::config::CleanConfig;
use zed_context_cleaner::json::JsonValue;
use zed_context_cleaner::json_form::{compact_len, stored_text_len, thread_value};
use zed_context_cleaner::measure::{json_len, opt_json_len, opt_text_len, redacted_len};
use zed_context_cleaner::preview::{preview_cleanup, try_preview_cleanup, PreviewTally};
use zed_context_cleaner::rank::insert_ranked;
use zed_context_cleaner::stats::{compute_stats, try_compute_stats};
use zed_context_cleaner::str_map::StrMap;
use zed_context_cleaner::types::{
    AgentContent, AgentMessage, CleanupPreview, DbThread, Message, ThinkingBlock, ThreadAnalysis,
    ThreadStats, TokenUsage, ToolResult, ToolUseBlock, UserContent, UserMessage,
};

fn text(s: &str) -> JsonValue {
    JsonValue::Text(s.to_string())
}

fn xs(n: usize) -> JsonValue {
    text(&"x".repeat(n))
}

fn user(content: Vec<UserContent>) -> Message {
    Message::User { user: UserMessage { id: "u".to_string(), content } }
}

fn call(id: &str, name: &str, path: &str) -> AgentContent {
    AgentContent::ToolUse(ToolUseBlock {
        id: id.to_string(),
        name: name.to_string(),
        raw_input: Some("12345".to_string()),
        input: Some(JsonValue::object("path", text(path))),
        is_input_complete: None,
        thought_signature: None,
    })
}

fn agent(
    content: Vec<AgentContent>,
    results: Vec<(&str, &str, Option<JsonValue>, Option<JsonValue>)>,
    reasoning_details: Option<JsonValue>,
) -> Message {
    let mut map = StrMap::new();
    for (id, tool, content, output) in results {
        map.insert(
            id.to_string(),
            ToolResult {
                tool_use_id: id.to_string(),
                tool_name: tool.to_string(),
                is_error: false,
                content,
                output,
            },
        );
    }
    Message::Agent { agent: AgentMessage { content, tool_results: Some(map), reasoning_details } }
}

fn thread(messages: Vec<Message>) -> DbThread {
    DbThread {
        title: None,
        version: None,
        updated_at: None,
        messages,
        detailed_summary: None,
        initial_project_snapshot: None,
        cumulative_token_usage: None,
        request_token_usage: None,
        model: None,
        profile: None,
        subagent_context: None,
        imported: None,
        speed: None,
        thinking_enabled: None,
        thinking_effort: None,
        draft_prompt: None,
        ui_scroll_position: None,
    }
}

fn sample() -> DbThread {
    thread(vec![
        user(vec![
            UserContent::Text { text: "héllo".to_string() },
            UserContent::Other(JsonValue::Array(vec![JsonValue::unsigned(1)])),
        ]),
        Message::Other(text("Resume")),
        agent(
            vec![
                AgentContent::Thinking(ThinkingBlock {
                    text: "abcd".to_string(),
                    signature: Some("xy".to_string()),
                }),
                AgentContent::RedactedThinking(JsonValue::object("data", text("123"))),
                AgentContent::RedactedThinking(text("no object")),
                AgentContent::Text("answer".to_string()),
                call("r1", "read_file", "a"),
                call("r2", "read_file", "a"),
                call("t1", "terminal", "a"),
            ],
            vec![
                ("r1", "read_file", Some(xs(10)), Some(xs(3))),
                ("r2", "read_file", Some(xs(3100)), None),
                ("t1", "terminal", Some(xs(2050)), Some(xs(1098))),
                ("t2", "terminal", Some(JsonValue::Null), None),
                ("p1", "save_file", Some(xs(9000)), Some(xs(9000))),
                ("n1", "grep", None, None),
            ],
            Some(JsonValue::Bool(true)),
        ),
        user(vec![UserContent::Text { text: "more".to_string() }]),
        agent(
            vec![call("t3", "terminal", "b")],
            vec![("t3", "terminal", Some(xs(5000)), Some(xs(5000)))],
            None,
        ),
    ])
}

#[test]
fn statistics_of_a_thread() {
    let stats = compute_stats(&sample(), "raw json", 42);
    assert_eq!(stats.total_messages, 5);
    assert_eq!(stats.user_messages, 2);
    assert_eq!(stats.agent_messages, 2);
    assert_eq!(stats.compressed_size, 42);
    assert_eq!(stats.uncompressed_size, 8);
    // 4 + 2 + 3 + 0 for the blocks, 4 for the text "true".
    assert_eq!(stats.thinking_bytes, 13);
    // Content, and output with its quotes; null content takes nothing.
    assert_eq!(
        stats.tool_results_bytes,
        (10 + 5) + 3100 + (2050 + 1100) + (9000 + 9002) + (5000 + 5002)
    );
    // "héllo", "[1]", "more" and "answer".
    assert_eq!(stats.text_bytes, 6 + 3 + 4 + 6);
    let counts: Vec<(&str, usize)> =
        stats.tool_call_counts.iter().map(|(n, c)| (n.as_str(), *c)).collect();
    assert_eq!(counts.iter().map(|c| c.1).sum::<usize>(), 4);
    assert!(counts.contains(&("read_file", 2)) && counts.contains(&("terminal", 2)));
    assert_eq!(counts.len(), 2);
    assert!(try_compute_stats(&sample(), "raw json", 42).is_some());
}

#[test]
fn tool_calls_are_ranked_by_count() {
    let t = thread(vec![agent(
        vec![call("1", "a", ""), call("2", "b", ""), call("3", "b", ""), call("4", "c", "")],
        vec![],
        None,
    )]);
    let stats = compute_stats(&t, "", 0);
    assert_eq!(stats.tool_call_counts[0], ("b".to_string(), 2));
    assert_eq!(stats.tool_call_counts.len(), 3);
    let copy = stats.clone();
    assert_eq!(copy.tool_call_counts, stats.tool_call_counts);
}

#[test]
fn analysis_of_a_thread() {
    let a = analyze_thread(&sample(), 1);
    assert_eq!(a.message_count, 5);
    assert_eq!(a.protected_message_count, 2);
    assert_eq!(a.total_user_bytes, 6 + 3 + 4);
    assert_eq!(a.total_agent_text_bytes, 6);
    assert_eq!(a.total_tool_use_bytes, 20);
    // Null content counts as its JSON text here.
    assert_eq!(a.total_tool_result_bytes, 10 + 3100 + 2050 + 4 + 9000 + 5000);
    assert_eq!(
        a.grand_total_bytes,
        a.total_user_bytes
            + a.total_agent_text_bytes
            + a.total_tool_use_bytes
            + a.total_tool_result_bytes
    );
    let names: Vec<&str> = a.categories.iter().map(|c| c.tool_name.as_str()).collect();
    assert_eq!(names, vec!["save_file", "terminal", "read_file", "grep"]);
    let terminal = &a.categories[1];
    assert_eq!(terminal.count, 3);
    assert_eq!(terminal.total_bytes, 2050 + 4 + 5000);
    assert_eq!(terminal.max_bytes, 5000);
    assert_eq!(terminal.in_protected, 1);
    // Outside the zone: 50 over 2000, and 1100 of output, 100 over 1000.
    assert_eq!(terminal.cleanable_bytes, 150);
    assert_eq!(a.categories[0].cleanable_bytes, 0);
    assert_eq!(a.categories[2].cleanable_bytes, 100);
    assert_eq!(a.categories[3].total_bytes, 0);
    assert_eq!(a.categories.iter().map(|c| c.total_bytes).sum::<usize>(), a.total_tool_result_bytes);
    assert_eq!(a.categories.iter().map(|c| c.count).sum::<usize>(), 7);
}

#[test]
fn a_protected_tool_has_nothing_to_clean() {
    let a = try_analyze_thread(&sample(), 0).unwrap();
    let terminal = a.categories.iter().find(|c| c.tool_name == "terminal").unwrap();
    assert_eq!(terminal.in_protected, 0);
    assert_eq!(terminal.cleanable_bytes, 50 + 100 + 3000 + 4002);
    let t = thread(vec![
        user(vec![]),
        agent(vec![], vec![("t", "terminal", Some(xs(5000)), None)], None),
    ]);
    let a = analyze_thread(&t, 1);
    assert_eq!(a.categories[0].in_protected, a.categories[0].count);
    assert_eq!(a.categories[0].cleanable_bytes, 0);
    assert_eq!(a.clone().categories[0].total_bytes, 5000);
}

#[test]
fn figures_of_a_tool_are_recorded() {
    let tally = CategoryTally::new()
        .record(100, 60, false, Some(100))
        .record(130, 0, true, Some(100))
        .record(7, 7, false, None);
    let row = tally.finish("tool".to_string()).unwrap();
    assert_eq!(row.tool_name, "tool");
    assert_eq!(row.count, 3);
    assert_eq!(row.total_bytes, 237);
    assert_eq!(row.max_bytes, 130);
    assert_eq!(row.in_protected, 1);
    assert_eq!(row.cleanable_bytes, 10);
    let over = CategoryTally::new().record(usize::MAX, 0, true, None).record(1, 0, true, None);
    assert!(over.finish("tool".to_string()).is_none());
}

#[test]
fn preview_of_a_cleanup() {
    let config = CleanConfig { keep_last_n_dialogs: 1, ..CleanConfig::default() };
    let p = preview_cleanup(&sample(), &config, "raw json");
    assert_eq!(p.thinking_blocks_removed, 3);
    // 6 and 3 and 0 for the blocks, 4 for the details, 10 for the first read.
    assert_eq!(p.bytes_to_remove, 6 + 3 + 4 + 10);
    assert_eq!(p.duplicate_read_file_removed, 1);
    assert_eq!(p.tool_results_truncated, 2);
    assert_eq!(p.bytes_to_truncate, 100 + 50);
    assert_eq!(p.original_size, 8);
    let cleaned = clean_thread(&sample(), &config);
    assert_eq!(p.estimated_new_size, compact_len(&cleaned));
    assert_eq!(p.estimated_new_size, thread_value(&cleaned).to_text().len());
    assert!(try_preview_cleanup(&sample(), &config, "").is_some());
}

#[test]
fn results_are_previewed_one_by_one() {
    let mut tally = PreviewTally::new();
    tally.record_result(true, Some(30), Some(10));
    tally.record_result(true, None, Some(10));
    tally.record_result(false, Some(30), Some(10));
    tally.record_result(false, Some(10), Some(10));
    tally.record_result(false, Some(30), None);
    tally.record_result(false, None, Some(10));
    let p = tally.finish(1, 2).unwrap();
    assert_eq!(p.duplicate_read_file_removed, 2);
    assert_eq!(p.bytes_to_remove, 30);
    assert_eq!(p.tool_results_truncated, 1);
    assert_eq!(p.bytes_to_truncate, 20);
    assert_eq!((p.original_size, p.estimated_new_size), (1, 2));
}

#[test]
fn sizes_of_parts() {
    assert_eq!(opt_text_len(&None), 0);
    assert_eq!(opt_text_len(&Some("äb".to_string())), 3);
    assert_eq!(json_len(&text("a\n")), 5);
    assert_eq!(opt_json_len(&None), 0);
    assert_eq!(opt_json_len(&Some(JsonValue::Null)), 4);
    assert_eq!(redacted_len(&JsonValue::object("data", text("123"))), 3);
    assert_eq!(redacted_len(&JsonValue::object("data", JsonValue::Null)), 0);
}

#[test]
fn items_are_ranked_in_the_order_they_come() {
    let mut items = vec!["a", "b"];
    let mut ranks = vec![5, 3];
    assert_eq!(insert_ranked(&mut items, &mut ranks, "c", 5), 1);
    assert_eq!(insert_ranked(&mut items, &mut ranks, "d", 9), 0);
    assert_eq!(insert_ranked(&mut items, &mut ranks, "e", 1), 4);
    assert_eq!(items, vec!["d", "a", "c", "b", "e"]);
    assert_eq!(ranks, vec![9, 5, 5, 3, 1]);
}

#[test]
fn figures_start_at_zero() {
    let stats = ThreadStats::default();
    assert_eq!(stats.total_messages + stats.text_bytes + stats.tool_call_counts.len(), 0);
    let preview = CleanupPreview::default();
    assert_eq!(preview.bytes_to_remove + preview.estimated_new_size, 0);
    let analysis = ThreadAnalysis::default();
    assert_eq!(analysis.grand_total_bytes + analysis.categories.len(), 0);
}

#[test]
fn no_thinking_is_counted_after_a_cleanup() {
    let config = CleanConfig { keep_last_n_dialogs: 0, ..CleanConfig::default() };
    let before = compute_stats(&sample(), "", 0);
    let after = compute_stats(&clean_thread(&sample(), &config), "", 0);
    assert!(before.thinking_bytes > 0);
    assert_eq!(after.thinking_bytes, 0);
    assert_eq!(after.user_messages, before.user_messages);
    assert_eq!(after.text_bytes, before.text_bytes);
}

#[test]
fn the_json_form_of_a_thread() {
    let mut results = StrMap::new();
    results.insert(
        "k".to_string(),
        ToolResult {
            tool_use_id: "t".to_string(),
            tool_name: "grep".to_string(),
            is_error: false,
            content: None,
            output: Some(JsonValue::Bool(true)),
        },
    );
    let mut usage = StrMap::new();
    usage.insert(
        "u".to_string(),
        TokenUsage {
            input_tokens: Some(7),
            output_tokens: None,
            cache_creation_input_tokens: None,
            cache_read_input_tokens: Some(0),
        },
    );
    let mut t = thread(vec![
        user(vec![UserContent::Text { text: "q".to_string() }, UserContent::Other(text("o"))]),
        Message::Agent {
            agent: AgentMessage {
                content: vec![
                    AgentContent::Thinking(ThinkingBlock {
                        text: "h".to_string(),
                        signature: None,
                    }),
                    AgentContent::RedactedThinking(JsonValue::object("data", text("d"))),
                    AgentContent::Text("a".to_string()),
                    call("c", "grep", "p"),
                ],
                tool_results: Some(results),
                reasoning_details: Some(JsonValue::Null),
            },
        },
        Message::Agent {
            agent: AgentMessage { content: vec![], tool_results: None, reasoning_details: None },
        },
        Message::Other(text("Resume")),
    ]);
    t.title = Some("T".to_string());
    t.request_token_usage = Some(usage);
    t.speed = Some(JsonValue::unsigned(2));
    let wanted = "{\"cumulative_token_usage\":null,\"detailed_summary\":null,\
        \"initial_project_snapshot\":null,\"messages\":[\
        {\"User\":{\"content\":[{\"Text\":\"q\"},\"o\"],\"id\":\"u\"}},\
        {\"Agent\":{\"content\":[{\"Thinking\":{\"signature\":null,\"text\":\"h\"}},\
        {\"RedactedThinking\":{\"data\":\"d\"}},{\"Text\":\"a\"},\
        {\"ToolUse\":{\"id\":\"c\",\"input\":{\"path\":\"p\"},\"is_input_complete\":null,\
        \"name\":\"grep\",\"raw_input\":\"12345\"}}],\"reasoning_details\":null,\
        \"tool_results\":{\"k\":{\"content\":null,\"is_error\":false,\"output\":true,\
        \"tool_name\":\"grep\",\"tool_use_id\":\"t\"}}}},\
        {\"Agent\":{\"content\":[],\"tool_results\":null}},\"Resume\"],\
        \"model\":null,\"profile\":null,\
        \"request_token_usage\":{\"u\":{\"cache_read_input_tokens\":0,\"input_tokens\":7}},\
        \"speed\":2,\"subagent_context\":null,\"title\":\"T\",\"updated_at\":null,\
        \"version\":null}";
    assert_eq!(thread_value(&t).to_text(), wanted);
    assert_eq!(compact_len(&t), wanted.len());
    let indented = thread_value(&t).to_pretty_text();
    assert_eq!(stored_text_len(&t), indented.len());
    assert!(indented.starts_with("{\n  \"cumulative_token_usage\": null,\n"));
}
