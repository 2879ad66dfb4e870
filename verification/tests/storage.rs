use zed_context_cleaner::backup::{
    backup_filename, backup_label, pretty_backup, sanitize_title, select_backups, text_before,
    thread_id_of_backup, time_of_backup, validate_backup, BackupError, BackupFile,
};
use zed_context_cleaner::blob::{
    compress_data, compress_text, contains_bytes, decompress_data, detect_type_fast,
    detect_type_of_bytes, text_of_bytes, unknown_type_message, BlobError,
};

const ID: &str = "77016878-6e31-48e6-8c25-7d607fd60728";

#[test]
fn what_is_packed_is_unpacked() {
    for json in ["", "{}", "{\"title\":\"größe €\"}"] {
        for data_type in ["zstd", "json"] {
            let data = compress_data(json, data_type).unwrap();
            assert_eq!(decompress_data(&data, data_type).unwrap(), json);
        }
    }
    let long = "{\"a\":1}".repeat(10_000);
    let data = compress_data(&long, "zstd").unwrap();
    assert!(data.len() < long.len() / 10);
    assert_eq!(decompress_data(&data, "zstd").unwrap(), long);
}

#[test]
fn plain_data_is_the_text_itself() {
    assert_eq!(compress_data("{\"a\":1}", "json").unwrap(), b"{\"a\":1}".to_vec());
    assert_eq!(&compress_data("x", "zstd").unwrap()[..4], &[0x28, 0xb5, 0x2f, 0xfd]);
}

#[test]
fn an_unknown_data_type_is_refused() {
    match compress_data("{}", "gzip") {
        Err(BlobError::UnknownDataType(t)) => assert_eq!(t, "gzip"),
        _ => panic!("expected an unknown data type"),
    }
    match decompress_data(b"{}", "ZSTD") {
        Err(BlobError::UnknownDataType(t)) => assert_eq!(t, "ZSTD"),
        _ => panic!("expected an unknown data type"),
    }
}

#[test]
fn bad_data_is_refused() {
    assert!(matches!(decompress_data(b"no frame", "zstd"), Err(BlobError::Zstd(_))));
    assert!(matches!(decompress_data(&[0xff, 0xfe], "json"), Err(BlobError::Utf8(_))));
    assert!(matches!(text_of_bytes(vec![0xc3]), Err(BlobError::Utf8(_))));
    assert_eq!(text_of_bytes(vec![0xc3, 0xa4]).unwrap(), "ä");
}

#[test]
fn bytes_are_found() {
    assert!(contains_bytes(b"abcabd", b"abd"));
    assert!(contains_bytes(b"abc", b"abc"));
    assert!(contains_bytes(b"abc", b""));
    assert!(!contains_bytes(b"abc", b"abcd"));
    assert!(!contains_bytes(b"ab ab", b"aba"));
}

#[test]
fn the_type_of_a_stored_thread() {
    let chat = "{\"messages\":[],\"subagent_context\":null}";
    let subagent = "{\"subagent_context\":{\"parent\":1}}";
    let plain = "{\"messages\":[]}";
    assert_eq!(detect_type_of_bytes(chat.as_bytes()), "Chat");
    assert_eq!(detect_type_of_bytes(plain.as_bytes()), "Chat");
    assert_eq!(detect_type_of_bytes(subagent.as_bytes()), "Subagent");
    for data_type in ["zstd", "json"] {
        for json in [chat, subagent, plain] {
            let data = compress_data(json, data_type).unwrap();
            assert_eq!(
                detect_type_fast(&data, data_type),
                detect_type_of_bytes(json.as_bytes())
            );
        }
    }
    assert_eq!(detect_type_fast(b"no frame", "zstd"), "");
    assert_eq!(detect_type_fast(b"{}", "other"), "");
}

#[test]
fn blanks_around_the_colon_do_not_change_the_type() {
    assert_eq!(detect_type_fast(b"{\n  \"subagent_context\": null\n}", "json"), "Chat");
    for json in [
        "{\"subagent_context\" :null}",
        "{\"subagent_context\"\t:\r\n\tnull}",
        "{\"subagent_context\":    null, \"a\": 1}",
    ] {
        assert_eq!(detect_type_of_bytes(json.as_bytes()), "Chat", "{}", json);
    }
    for json in [
        "{\n  \"subagent_context\": {\n    \"parent\": null\n  }\n}",
        "{\"subagent_context\": \"null\"}",
        "{\"subagent_context\"",
        "{\"subagent_context\" ",
        "{\"subagent_context\": nul",
        "{\"subagent_context\"; null",
    ] {
        assert_eq!(detect_type_of_bytes(json.as_bytes()), "Subagent", "{}", json);
    }
}

#[test]
fn an_indented_thread_keeps_its_type() {
    for json in ["{\"subagent_context\":null}", "{\"subagent_context\":{}}", "{\"a\":[]}"] {
        let indented = pretty_backup(json).unwrap();
        assert_eq!(
            detect_type_of_bytes(indented.as_bytes()),
            detect_type_of_bytes(json.as_bytes())
        );
    }
}

#[test]
fn whitespace_is_the_list_of_unicode() {
    for c in (0..=0x10ffffu32).filter_map(char::from_u32) {
        let listed = matches!(
            c as u32,
            0x09..=0x0d
                | 0x20
                | 0x85
                | 0xa0
                | 0x1680
                | 0x2000..=0x200a
                | 0x2028
                | 0x2029
                | 0x202f
                | 0x205f
                | 0x3000
        );
        assert_eq!(c.is_whitespace(), listed, "{:?}", c);
    }
}

#[test]
fn titles_are_made_safe() {
    assert_eq!(sanitize_title("VPN App Icon"), "VPN_App_Icon");
    assert_eq!(sanitize_title("  a/b: c\\d?  "), "ab_cd");
    assert_eq!(sanitize_title("größe-1_2"), "größe-1_2");
    assert_eq!(sanitize_title("!!!"), "");
    assert_eq!(sanitize_title(&"x".repeat(50)), "x".repeat(40));
    // The limit counts the characters that stay, and comes before trimming.
    assert_eq!(sanitize_title(&format!("{}?{}", "a".repeat(39), " b")), "a".repeat(39));
}

#[test]
fn names_of_backups() {
    assert_eq!(
        backup_filename(ID, Some("My Thread"), "20260416_190000"),
        "77016878-6e31-48e6-8c25-7d607fd60728_My_Thread_20260416_190000.json"
    );
    assert_eq!(backup_filename("id", None, "t"), "id_untitled_t.json");
}

#[test]
fn a_backup_leads_back_to_its_thread() {
    let name = backup_filename(ID, Some("äöü"), "20260416_190000");
    let stem = name.trim_end_matches(".json");
    assert_eq!(thread_id_of_backup(stem), Some(ID.to_string()));
    assert_eq!(thread_id_of_backup(ID), Some(ID.to_string()));
    assert_eq!(thread_id_of_backup("short"), None);
    assert_eq!(thread_id_of_backup(&"x".repeat(40)), None);
}

#[test]
fn backups_are_listed_newest_first() {
    let file = |name: &str, extension: Option<&str>| BackupFile {
        name: name.to_string(),
        extension: extension.map(|e| e.to_string()),
    };
    let files = vec![
        file("id_a_20250101_000000.json", Some("json")),
        file("other_a_20250102_000000.json", Some("json")),
        file("id_a_20250103_000000.json", Some("json")),
        file("id_a_20250102_000000.txt", Some("txt")),
        file("id", None),
        file("id_a_20250102_000000.json", Some("json")),
        file("id_a_20250102_000000.json", Some("json")),
    ];
    assert_eq!(select_backups(&files, "id"), vec![2, 5, 6, 0]);
    assert_eq!(select_backups(&files, "nothing"), Vec::<usize>::new());
    assert_eq!(select_backups(&vec![], "id"), Vec::<usize>::new());
}

#[test]
fn texts_are_ordered_by_bytes() {
    for (a, b) in [("", "a"), ("a", "b"), ("a", "ab"), ("Z", "a"), ("z", "ä"), ("", "")] {
        assert_eq!(text_before(a, b), a < b);
        assert_eq!(text_before(b, a), b < a);
    }
}

#[test]
fn labels_of_backups() {
    assert_eq!(backup_label("a_b.json"), "a_b");
    assert_eq!(backup_label("a.json.json"), "a");
    assert_eq!(backup_label("a.txt"), "a.txt");
    assert_eq!(backup_label(".json"), "");
    assert_eq!(backup_label("json"), "json");
}

#[test]
fn backups_hold_indented_json() {
    assert_eq!(
        pretty_backup("{\"b\":[1,2],\"a\":null}").unwrap(),
        "{\n  \"a\": null,\n  \"b\": [\n    1,\n    2\n  ]\n}"
    );
    assert!(matches!(pretty_backup("{"), Err(BackupError::InvalidJson(_))));
    assert!(validate_backup("[1, 2]").is_ok());
    assert!(matches!(validate_backup("[1, 2"), Err(BackupError::InvalidJson(_))));
    assert!(validate_backup("").is_err());
}

#[test]
fn backups_of_a_thread_are_found_newest_first() {
    let files: Vec<BackupFile> = ["20250131_235959", "20250201_000000", "20241231_120000"]
        .iter()
        .map(|t| BackupFile {
            name: backup_filename(ID, Some("My Thread"), t),
            extension: Some("json".to_string()),
        })
        .collect();
    assert_eq!(select_backups(&files, ID), vec![1, 0, 2]);
}

#[test]
fn backups_under_different_titles_are_listed_newest_first() {
    let file = |name: String| BackupFile { name, extension: Some("json".to_string()) };
    let files = vec![
        file(backup_filename(ID, Some("Zebra"), "20250101_120000")),
        file(backup_filename(ID, Some("Apple"), "20250201_120000")),
        file(format!("{}_copy.json", ID)),
        file(backup_filename(ID, None, "20250115_120000")),
        file(backup_filename(ID, Some("Apple"), "20250101_120000")),
        file(backup_filename(ID, Some("9"), "20250101_120001")),
    ];
    // Of equal times the later name comes first, and a file without a time last.
    assert_eq!(select_backups(&files, ID), vec![1, 3, 5, 0, 4, 2]);
}

#[test]
fn the_time_of_a_backup() {
    assert_eq!(time_of_backup("id_Title_20250102_030405.json"), "20250102_030405");
    assert_eq!(time_of_backup("20250102_030405.json"), "20250102_030405");
    assert_eq!(time_of_backup("id_20250102_030405"), "20250102_030405");
    assert_eq!(time_of_backup("id_20250102-030405.json"), "");
    assert_eq!(time_of_backup("id_2025010x_030405.json"), "");
    assert_eq!(time_of_backup("0250102_030405.json"), "");
    assert_eq!(time_of_backup("id_20250102_030405.json.json"), "");
    assert_eq!(time_of_backup(".json"), "");
    assert_eq!(time_of_backup(""), "");
}

#[test]
fn a_restored_backup_is_what_is_read_back() {
    let backup = pretty_backup("{\"messages\":[],\"title\":\"T\"}").unwrap();
    assert!(validate_backup(&backup).is_ok());
    let data = compress_data(&backup, "zstd").unwrap();
    assert_eq!(decompress_data(&data, "zstd").unwrap(), backup);
}

#[test]
fn integers_and_texts_survive_a_backup() {
    for raw in [
        "{\"a\":[0,-1,18446744073709551615,-9223372036854775808],\"b\":\"\\u0000\\\"\\\\ä😀\"}",
        "[[],{},null,true,\"\"]",
        "{\"k\":1,\"k\":2}",
    ] {
        let once = pretty_backup(raw).unwrap();
        assert!(validate_backup(&once).is_ok());
        let value: serde_json::Value = serde_json::from_str(raw).unwrap();
        let again: serde_json::Value = serde_json::from_str(&once).unwrap();
        assert_eq!(value, again);
        assert_eq!(pretty_backup(&once).unwrap(), once);
    }
}

#[test]
fn an_unknown_data_type_is_named() {
    assert_eq!(unknown_type_message("gzip"), "Unknown data_type: gzip");
    let data = compress_text("text").unwrap();
    assert_eq!(decompress_data(&data, "zstd").unwrap(), "text");
}
