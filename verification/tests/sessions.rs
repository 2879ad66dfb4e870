use zed_context_cleaner::clean::clean_thread;
use zed_context_cleaner::config::CleanConfig;
use zed_context_cleaner::dialog::{
    can_poll, category_size_text, cleanup_config, estimated_size, handle_event, plan_cleanup,
    restored_message,
    saved_bytes, CleanupOptions, DialogAction, DialogEvent, DialogState,
};
use zed_context_cleaner::json::JsonValue;
use zed_context_cleaner::json_form::stored_text_len;
use zed_context_cleaner::session::{
    cache_types, detect_thread_type, shows_thread, stored_size, visible_threads, CategoryChecks,
    ThreadFilter,
};
use zed_context_cleaner::str_map::StrMap;
use zed_context_cleaner::types::{DbThread, ThreadMeta, ToolCategoryStats};

fn meta(id: &str, summary: &str, thread_type: &str, data_size: usize) -> ThreadMeta {
    ThreadMeta {
        id: id.to_string(),
        summary: summary.to_string(),
        updated_at: String::new(),
        created_at: String::new(),
        data_type: "zstd".to_string(),
        data_size,
        thread_type: thread_type.to_string(),
    }
}

fn thread(subagent_context: Option<JsonValue>) -> DbThread {
    DbThread {
        title: Some("Title".to_string()),
        version: None,
        updated_at: None,
        messages: vec![],
        detailed_summary: None,
        initial_project_snapshot: None,
        cumulative_token_usage: None,
        request_token_usage: None,
        model: None,
        profile: None,
        subagent_context,
        imported: None,
        speed: None,
        thinking_enabled: None,
        thinking_effort: None,
        draft_prompt: None,
        ui_scroll_position: None,
    }
}

fn row(tool: &str, cleanable_bytes: usize) -> ToolCategoryStats {
    ToolCategoryStats {
        tool_name: tool.to_string(),
        count: 1,
        total_bytes: cleanable_bytes,
        max_bytes: cleanable_bytes,
        in_protected: 0,
        cleanable_bytes,
    }
}

#[test]
fn filters_have_names() {
    assert_eq!(ThreadFilter::All.label(), "All");
    assert_eq!(ThreadFilter::Chat.label(), "Chat");
    assert_eq!(ThreadFilter::Subagent.label(), "Subagent");
    assert!(ThreadFilter::All == ThreadFilter::All);
    assert!(ThreadFilter::All != ThreadFilter::Chat);
}

#[test]
fn the_type_of_a_loaded_thread() {
    assert_eq!(detect_thread_type(&thread(None)), "Chat");
    assert_eq!(detect_thread_type(&thread(Some(JsonValue::Null))), "Chat");
    assert_eq!(detect_thread_type(&thread(Some(JsonValue::empty_object()))), "Subagent");
}

#[test]
fn a_cleanup_keeps_the_type_of_a_thread() {
    for context in [None, Some(JsonValue::Null), Some(JsonValue::Bool(true))] {
        let t = thread(context);
        let cleaned = clean_thread(&t, &CleanConfig::default());
        assert_eq!(detect_thread_type(&cleaned), detect_thread_type(&t));
    }
}

#[test]
fn known_types_are_cached() {
    let mut cache: StrMap<String> = StrMap::new();
    cache.insert("a".to_string(), "Chat".to_string());
    cache.insert("b".to_string(), "Chat".to_string());
    let list =
        vec![meta("a", "", "Subagent", 0), meta("b", "", "", 0), meta("c", "", "Chat", 0)];
    cache_types(&mut cache, &list);
    assert_eq!(cache.len(), 3);
    assert_eq!(cache.get("a").unwrap(), "Subagent");
    assert_eq!(cache.get("b").unwrap(), "Chat");
    assert_eq!(cache.get("c").unwrap(), "Chat");
    assert!(cache.get("d").is_none());
    assert!(!cache.contains_key("d"));
}

#[test]
fn threads_are_listed_by_search_and_filter() {
    let list = vec![
        meta("a", "VPN App", "Chat", 0),
        meta("b", "vpn worker", "Subagent", 0),
        meta("c", "unknown VPN", "", 0),
        meta("d", "other", "Chat", 0),
    ];
    let mut cache = StrMap::new();
    cache_types(&mut cache, &list);
    let shown = |search: &str, filter| visible_threads(&list, search, filter, &cache);
    assert_eq!(shown("", ThreadFilter::All), vec![0, 1, 2, 3]);
    assert_eq!(shown("VPN", ThreadFilter::All), vec![0, 1, 2]);
    assert_eq!(shown("vpn", ThreadFilter::Chat), vec![0]);
    assert_eq!(shown("vpn", ThreadFilter::Subagent), vec![1]);
    assert_eq!(shown("", ThreadFilter::Chat), vec![0, 3]);
    assert_eq!(shown("nothing", ThreadFilter::All), Vec::<usize>::new());
}

#[test]
fn a_thread_is_shown_by_what_is_given() {
    let chat = "Chat".to_string();
    assert!(shows_thread("abc", "B", "b", ThreadFilter::Chat, Some(&chat)));
    assert!(!shows_thread("abc", "X", "x", ThreadFilter::All, None));
    assert!(shows_thread("abc", "", "x", ThreadFilter::All, None));
    assert!(!shows_thread("abc", "", "", ThreadFilter::Subagent, Some(&chat)));
    assert!(!shows_thread("abc", "", "", ThreadFilter::Chat, None));
}

#[test]
fn the_stored_size_comes_from_the_list() {
    let list = vec![meta("a", "", "", 5), meta("b", "", "", 6), meta("b", "", "", 7)];
    assert_eq!(stored_size(&list, "a"), 5);
    assert_eq!(stored_size(&list, "b"), 6);
    assert_eq!(stored_size(&list, "c"), 0);
}

#[test]
fn tools_are_checked_where_much_can_be_saved() {
    let checks = CategoryChecks::of_rows(&vec![row("big", 10_001), row("small", 10_000)]);
    assert_eq!(checks.get("big"), Some(true));
    assert_eq!(checks.get("small"), Some(false));
    assert_eq!(checks.get("other"), None);
    assert_eq!(checks.skipped(), vec!["small".to_string()]);
}

#[test]
fn checks_follow_a_new_analysis() {
    let mut checks = CategoryChecks::of_rows(&vec![row("a", 20_000), row("b", 0), row("c", 0)]);
    checks.set("a", false);
    checks.set("b", true);
    checks.update_rows(&vec![row("b", 0), row("a", 20_000), row("d", 20_000), row("e", 1)]);
    assert_eq!(checks.get("a"), Some(false));
    assert_eq!(checks.get("b"), Some(true));
    assert_eq!(checks.get("c"), None);
    assert_eq!(checks.get("d"), Some(true));
    assert_eq!(checks.get("e"), Some(false));
    assert_eq!(checks.skipped(), vec!["a".to_string(), "e".to_string()]);
}

#[test]
fn options_and_checks_make_the_settings() {
    let mut checks = CategoryChecks::new();
    checks.set("grep", false);
    checks.set("terminal", true);
    let options = CleanupOptions {
        keep_last_n: 3,
        remove_large_images: false,
        strip_tool_inputs: false,
        fix_redacted_thinking: true,
        ..CleanupOptions::default()
    };
    let config = cleanup_config(&options, &checks);
    assert_eq!(config.keep_last_n_dialogs, 3);
    assert_eq!(config.skip_tool_names, vec!["grep".to_string()]);
    assert!(config.is_skipped("grep") && !config.is_skipped("terminal"));
    assert!(!config.remove_large_images && !config.strip_tool_inputs);
    assert!(config.strip_tool_output && config.fix_redacted_thinking);
    assert!(!config.remove_tool_only_messages);
    assert_eq!(config.terminal_limit, 2000);
    assert_eq!(config.read_file_limit, 3000);
    assert_eq!(config.large_image_threshold, 10_000);
}

#[test]
fn the_estimate_is_the_size_of_the_cleanup() {
    let mut t = thread(Some(JsonValue::Null));
    t.initial_project_snapshot = Some(JsonValue::Text("x".repeat(500)));
    let checks = CategoryChecks::of_rows(&vec![row("grep", 1)]);
    let options = CleanupOptions { keep_last_n: 0, ..CleanupOptions::default() };
    let estimate = estimated_size(&t, &options, &checks).unwrap();
    let job = plan_cleanup(
        &Some("id".to_string()),
        &Some("{}".to_string()),
        &Some("zstd".to_string()),
        &Some(t.clone()),
        &options,
        &checks,
    )
    .unwrap();
    let cleaned = clean_thread(&job.thread, &job.config);
    assert_eq!(estimate, stored_text_len(&cleaned));
    assert!(estimate < stored_text_len(&t) - 300);
}

#[test]
fn a_cleanup_needs_a_loaded_thread() {
    let some = |s: &str| Some(s.to_string());
    let plan = |id: &Option<String>, raw: &Option<String>, data: &Option<String>, loaded: bool| {
        let t = if loaded { Some(thread(None)) } else { None };
        plan_cleanup(id, raw, data, &t, &CleanupOptions::default(), &CategoryChecks::new())
    };
    assert_eq!(plan(&None, &None, &None, false).unwrap_err(), "No thread selected.");
    assert_eq!(plan(&some("id"), &None, &None, false).unwrap_err(), "No thread data loaded.");
    assert_eq!(
        plan(&some("id"), &some("{}"), &None, false).unwrap_err(),
        "No data type information."
    );
    assert_eq!(
        plan(&some("id"), &some("{}"), &some("zstd"), false).unwrap_err(),
        "No thread loaded."
    );
    let job = plan(&some("id"), &some("{}"), &some("zstd"), true).unwrap();
    assert_eq!(job.thread_id, "id");
    assert_eq!(job.raw_json, "{}");
    assert_eq!(job.data_type, "zstd");
    assert_eq!(job.thread.title.as_deref(), Some("Title"));
    assert_eq!(job.config.keep_last_n_dialogs, 10);
}

#[test]
fn a_cleanup_starts_after_its_confirmation() {
    let none = None;
    let (state, action) = handle_event(DialogState::Closed, DialogEvent::AskCleanup, &none);
    assert!(matches!(state, DialogState::ConfirmCleanup));
    assert!(matches!(action, DialogAction::Nothing));
    let (state, action) = handle_event(state, DialogEvent::Proceed, &none);
    assert!(matches!(state, DialogState::Closed));
    assert!(matches!(action, DialogAction::StartCleanup));
    let (state, _) = handle_event(state, DialogEvent::Started, &none);
    assert!(matches!(state, DialogState::Processing));
    let (state, _) = handle_event(state, DialogEvent::Dismiss, &none);
    assert!(matches!(state, DialogState::Processing));
    let (state, action) = handle_event(state, DialogEvent::Proceed, &none);
    assert!(matches!(state, DialogState::Processing));
    assert!(matches!(action, DialogAction::Nothing));
    let done = DialogEvent::Saved {
        old_size: 9,
        new_size: 4,
        backup_file: "file".to_string(),
        thread_id: "id".to_string(),
    };
    let (state, _) = handle_event(state, done, &none);
    match &state {
        DialogState::CleanupResult { old_size, new_size, backup_file, thread_id } => {
            assert_eq!((*old_size, *new_size), (9, 4));
            assert_eq!((backup_file.as_str(), thread_id.as_str()), ("file", "id"));
        }
        other => panic!("{:?}", other),
    }
    let (state, _) = handle_event(state, DialogEvent::Dismiss, &none);
    assert!(matches!(state, DialogState::Closed));
}

#[test]
fn a_failed_cleanup_is_reported() {
    let message = |event: DialogEvent| match handle_event(DialogState::Processing, event, &None).0 {
        DialogState::CleanupError { message } => message,
        other => panic!("{:?}", other),
    };
    assert_eq!(message(DialogEvent::Failed { message: "why".to_string() }), "why");
    assert_eq!(message(DialogEvent::Crashed), "Cleanup thread crashed unexpectedly.");
    assert_eq!(
        message(DialogEvent::NotSaved { error: "locked".to_string() }),
        "Failed to save: locked"
    );
}

#[test]
fn a_restore_is_picked_and_confirmed() {
    let selected = Some("id".to_string());
    let (state, action) = handle_event(DialogState::Closed, DialogEvent::AskRestore, &selected);
    assert!(matches!(action, DialogAction::ListBackups));
    let pick = || DialogEvent::PickBackup { file_name: "f.json".to_string() };
    let (unmoved, _) = handle_event(state, pick(), &None);
    assert!(matches!(unmoved, DialogState::RestoreList));
    let (state, _) = handle_event(unmoved, pick(), &selected);
    match &state {
        DialogState::ConfirmRestore { file_name, thread_id } => {
            assert_eq!((file_name.as_str(), thread_id.as_str()), ("f.json", "id"));
        }
        other => panic!("{:?}", other),
    }
    let (state, action) = handle_event(state, DialogEvent::Proceed, &None);
    assert!(matches!(state, DialogState::Closed));
    match action {
        DialogAction::Restore { file_name, thread_id } => {
            assert_eq!((file_name.as_str(), thread_id.as_str()), ("f.json", "id"));
        }
        other => panic!("{:?}", other),
    }
    let (state, _) = handle_event(state, DialogEvent::Restored { size: 2048 }, &None);
    match &state {
        DialogState::RestoreResult { message } => {
            assert_eq!(message, &restored_message(2048));
            assert_eq!(
                message,
                "Restored from backup (2.0 KB).\nYou can now open Zed. \
                 Context window size will update after the first message."
            );
        }
        other => panic!("{:?}", other),
    }
    let (unmoved, _) = handle_event(state, pick(), &selected);
    assert!(matches!(unmoved, DialogState::RestoreResult { .. }));
}

#[test]
fn the_result_is_asked_for_after_a_second() {
    assert!(!can_poll(&DialogState::Processing, 999, false));
    assert!(can_poll(&DialogState::Processing, 1000, false));
    assert!(!can_poll(&DialogState::Processing, 1000, true));
    assert!(can_poll(&DialogState::Closed, 0, false));
    assert!(!can_poll(&DialogState::Closed, 0, true));
}

#[test]
fn savings_are_never_negative() {
    assert_eq!(saved_bytes(10, 4), 6);
    assert_eq!(saved_bytes(4, 10), 0);
    assert_eq!(category_size_text(2048, 1024), "2.0 KB (1.0 KB)");
    assert_eq!(category_size_text(5, 0), "5 B (protected)");
}
