use vstd::hash_set::StringHashSet;
use zed_context_cleaner::config::{tool_byte_limit, CleanConfig};
use zed_context_cleaner::json::JsonValue;
use zed_context_cleaner::tool_results::{
    clean_tool_result, clip_content, clip_output, content_text_given, content_value_len,
    extract_content_text, rewrap_content, text_size,
};
use zed_context_cleaner::types::ToolResult;

fn text(s: &str) -> JsonValue {
    JsonValue::Text(s.to_string())
}

fn object(members: Vec<(&str, JsonValue)>) -> JsonValue {
    JsonValue::Object(members.into_iter().map(|(k, v)| (k.to_string(), v)).collect())
}

fn result(tool: &str, content: Option<JsonValue>, output: Option<JsonValue>) -> ToolResult {
    ToolResult {
        tool_use_id: "id".to_string(),
        tool_name: tool.to_string(),
        is_error: true,
        content,
        output,
    }
}

fn json(v: &Option<JsonValue>) -> Option<String> {
    v.as_ref().map(|v| v.to_text())
}

#[test]
fn limits_go_by_tool() {
    let config = CleanConfig {
        terminal_limit: 1,
        search_limit: 2,
        read_file_limit: 3,
        ..CleanConfig::default()
    };
    for tool in ["terminal", "ssh_run", "ssh_connect", "ssh_disconnect", "ssh_status"] {
        assert_eq!(tool_byte_limit(tool, &config), Some(1));
    }
    for tool in ["grep", "find_path", "list_directory"] {
        assert_eq!(tool_byte_limit(tool, &config), Some(2));
    }
    assert_eq!(tool_byte_limit("read_file", &config), Some(3));
    for tool in [
        "create_directory",
        "copy_path",
        "move_path",
        "delete_path",
        "spawn_agent",
        "save_file",
    ] {
        assert_eq!(tool_byte_limit(tool, &config), None);
    }
    assert_eq!(tool_byte_limit("edit_file", &config), Some(1));
    assert_eq!(tool_byte_limit("something else", &config), Some(1));
}

#[test]
fn the_default_settings() {
    let config = CleanConfig::default();
    assert_eq!(config.keep_last_n_dialogs, 10);
    assert_eq!(config.terminal_limit, 2000);
    assert_eq!(config.read_file_limit, 3000);
    assert_eq!(config.search_limit, 2000);
    assert!(config.skip_tool_names.is_empty());
    assert!(config.remove_large_images);
    assert_eq!(config.large_image_threshold, 10_000);
    assert!(config.strip_tool_inputs);
    assert!(config.strip_tool_output);
    assert!(!config.remove_tool_only_messages);
    assert!(!config.fix_redacted_thinking);
    let copy = config.clone();
    assert_eq!(copy.read_file_limit, 3000);
}

#[test]
fn content_has_a_text() {
    assert_eq!(extract_content_text(&text("abc")), Some("abc".to_string()));
    assert_eq!(
        extract_content_text(&object(vec![("Text", text("abc"))])),
        Some("abc".to_string())
    );
    assert_eq!(extract_content_text(&JsonValue::Null), None);
    // Without a text of its own the content is its JSON text.
    let other = object(vec![("b", JsonValue::Bool(true)), ("a", JsonValue::unsigned(7))]);
    assert_eq!(extract_content_text(&other), Some("{\"a\":7,\"b\":true}".to_string()));
    let list = JsonValue::Array(vec![text("x\"y"), JsonValue::Null]);
    assert_eq!(extract_content_text(&list), Some("[\"x\\\"y\",null]".to_string()));
    assert_eq!(
        extract_content_text(&object(vec![("Text", JsonValue::Null)])),
        Some("{\"Text\":null}".to_string())
    );
}

#[test]
fn content_text_uses_the_json_text_it_is_given() {
    let list = JsonValue::Array(vec![]);
    assert_eq!(content_text_given(&list, "given"), Some("given".to_string()));
    assert_eq!(content_text_given(&text("own"), "given"), Some("own".to_string()));
    assert_eq!(content_text_given(&JsonValue::Null, "given"), None);
}

#[test]
fn content_sizes() {
    assert_eq!(content_value_len(&text("äb")), 3);
    assert_eq!(content_value_len(&JsonValue::Null), 0);
    assert_eq!(content_value_len(&object(vec![("Text", text("four"))])), 4);
    assert_eq!(content_value_len(&JsonValue::Array(vec![JsonValue::Bool(false)])), 7);
    assert_eq!(text_size(&None), 0);
}

#[test]
fn a_later_member_replaces_an_earlier_one() {
    let v = object(vec![("k", JsonValue::unsigned(1)), ("k", JsonValue::unsigned(2))]);
    assert_eq!(v.to_text(), "{\"k\":2}");
    assert_eq!(v.get("k").unwrap().to_text(), "2");
    assert_eq!(v.clone().to_text(), "{\"k\":2}");
}

#[test]
fn a_text_goes_back_into_its_shape() {
    assert_eq!(rewrap_content(&text("old"), "new".to_string()).to_text(), "\"new\"");
    assert_eq!(
        rewrap_content(&object(vec![("Text", text("old"))]), "new".to_string()).to_text(),
        "{\"Text\":\"new\"}"
    );
}

#[test]
fn content_is_clipped_at_the_limit() {
    assert_eq!(
        clip_content(&text("abcdef"), &Some("abcdef".to_string()), 4).to_text(),
        "\"abcd\\n... [TRUNCATED: 2 bytes omitted]\""
    );
    assert_eq!(clip_content(&JsonValue::Null, &None, 4).to_text(), "null");
}

#[test]
fn output_is_clipped_where_it_is_over_the_limit() {
    assert_eq!(clip_output(&text("abcd"), &Some("abcd".to_string()), "", 4).to_text(), "\"abcd\"");
    assert_eq!(
        clip_output(&text("abcde"), &Some("abcde".to_string()), "", 4).to_text(),
        "\"abcd\\n... [TRUNCATED: 1 bytes omitted]\""
    );
    assert_eq!(clip_output(&JsonValue::Null, &None, "null", 4).to_text(), "null");
    assert_eq!(
        clip_output(&JsonValue::Null, &None, "null", 3).to_text(),
        "\"nul\\n... [TRUNCATED: 1 bytes omitted]\""
    );
}

#[test]
fn a_skipped_tool_keeps_its_result() {
    let config = CleanConfig {
        skip_tool_names: vec!["grep".to_string(), "terminal".to_string()],
        ..CleanConfig::default()
    };
    let big = "x".repeat(9000);
    let mut dups = StringHashSet::new();
    dups.insert("id".to_string());
    let cleaned =
        clean_tool_result(&result("terminal", Some(text(&big)), Some(text("out"))), &config, &dups);
    assert_eq!(cleaned.content.unwrap().as_str(), Some(big.as_str()));
    assert_eq!(json(&cleaned.output), Some("\"out\"".to_string()));
}

#[test]
fn a_superseded_read_holds_the_notice() {
    let mut dups = StringHashSet::new();
    dups.insert("id".to_string());
    let cleaned = clean_tool_result(
        &result("read_file", Some(text("content")), Some(text("out"))),
        &CleanConfig { strip_tool_output: false, ..CleanConfig::default() },
        &dups,
    );
    assert_eq!(
        cleaned.content.unwrap().as_str(),
        Some("[DUPLICATE READ_FILE RESULT REMOVED: see last call for this file]")
    );
    assert!(cleaned.output.is_none());
    assert_eq!(cleaned.tool_use_id, "id");
    assert_eq!(cleaned.tool_name, "read_file");
    assert!(cleaned.is_error);
}

#[test]
fn output_goes_or_is_cut_at_half_the_limit() {
    let config = CleanConfig { terminal_limit: 10, ..CleanConfig::default() };
    let dups = StringHashSet::new();
    let r = result("terminal", Some(text("0123456789abc")), Some(text("0123456789")));
    let stripped = clean_tool_result(&r, &config, &dups);
    assert_eq!(
        stripped.content.unwrap().as_str(),
        Some("0123456789\n... [TRUNCATED: 3 bytes omitted]")
    );
    assert!(stripped.output.is_none());
    let config = CleanConfig { strip_tool_output: false, ..config };
    let cut = clean_tool_result(&r, &config, &dups);
    assert_eq!(cut.output.unwrap().as_str(), Some("01234\n... [TRUNCATED: 5 bytes omitted]"));
    let short = clean_tool_result(&result("terminal", None, Some(text("0123"))), &config, &dups);
    assert!(short.content.is_none());
    assert_eq!(short.output.unwrap().as_str(), Some("0123"));
}

#[test]
fn a_preserved_tool_keeps_its_content() {
    let big = "x".repeat(50_000);
    let r = result("spawn_agent", Some(text(&big)), Some(text(&big)));
    let dups = StringHashSet::new();
    let cleaned = clean_tool_result(&r, &CleanConfig::default(), &dups);
    assert_eq!(cleaned.content.unwrap().as_str(), Some(big.as_str()));
    assert!(cleaned.output.is_none());
    let config = CleanConfig { strip_tool_output: false, ..CleanConfig::default() };
    let cleaned = clean_tool_result(&r, &config, &dups);
    assert_eq!(cleaned.output.unwrap().as_str(), Some(big.as_str()));
}

#[test]
fn structured_content_is_cut_as_json_text() {
    let config = CleanConfig { terminal_limit: 5, ..CleanConfig::default() };
    let list = JsonValue::Array(vec![JsonValue::unsigned(1), JsonValue::unsigned(2)]);
    let small = clean_tool_result(
        &result("terminal", Some(list.clone()), None),
        &config,
        &StringHashSet::new(),
    );
    assert_eq!(small.content.unwrap().as_str(), Some("[1,2]"));
    let nested = object(vec![("Text", text("abcdefg")), ("extra", JsonValue::Null)]);
    let cut = clean_tool_result(
        &result("terminal", Some(nested), None),
        &config,
        &StringHashSet::new(),
    );
    assert_eq!(
        json(&cut.content),
        Some("{\"Text\":\"abcde\\n... [TRUNCATED: 2 bytes omitted]\"}".to_string())
    );
}
