use zed_context_cleaner::backup::{backup_filename, pretty_backup};
use zed_context_cleaner::blob::decompress_data;
use zed_context_cleaner::cli::{
    check_restore, is_uuid, list_summary, match_title, parse_command, parse_command_given,
    parse_number, plan_restore, resolve_thread_id, row_update, shorten_summary, title_matches,
    Command, Resolution, RestoreError, TitleMatch,
};
use zed_context_cleaner::types::ThreadMeta;

const ID: &str = "77016878-6e31-48e6-8c25-7d607fd60728";

fn args(list: &[&str]) -> Vec<String> {
    let mut args = vec!["program".to_string()];
    args.extend(list.iter().map(|s| s.to_string()));
    args
}

fn refused(list: &[&str]) -> String {
    match parse_command(&args(list)) {
        Err(e) => e,
        Ok(c) => panic!("not refused: {:?}", c),
    }
}

fn meta(summary: &str) -> ThreadMeta {
    ThreadMeta {
        id: format!("id of {}", summary),
        summary: summary.to_string(),
        updated_at: String::new(),
        created_at: String::new(),
        data_type: "zstd".to_string(),
        data_size: 7,
        thread_type: "Chat".to_string(),
    }
}

#[test]
fn uuids_are_told_from_titles() {
    assert!(is_uuid(ID));
    assert!(is_uuid("AAAAAAAA-bbbb-CCCC-dddd-0123456789eF"));
    assert!(!is_uuid(""));
    assert!(!is_uuid(&ID[..35]));
    assert!(!is_uuid(&ID.replace('7', "g")));
    assert!(!is_uuid(&ID.replace('-', "0")));
    assert!(!is_uuid("77016878-6e31-48e6-8c25-7d607fd6072ä"));
    assert!(is_uuid(&"-".repeat(36)));
}

#[test]
fn numbers_are_read_as_the_standard_library_reads_them() {
    for s in [
        "0", "7", "+5", "007", "18446744073709551615", "18446744073709551616", "", "+", "-1", "-0",
        " 1", "1 ", "1_0", "a", "1a", "٣", "++1", "99999999999999999999999999",
        "000000000000000000000000001",
    ] {
        assert_eq!(parse_number(s), s.parse::<usize>().ok(), "{}", s);
    }
}

#[test]
fn commands_are_read() {
    assert!(matches!(parse_command(&args(&["list"])), Ok(Command::List)));
    assert!(matches!(parse_command(&args(&["LIST", "more"])), Ok(Command::List)));
    for word in ["version", "--version", "-v", "-V", "Version"] {
        assert!(matches!(parse_command(&args(&[word])), Ok(Command::Version)));
    }
    for word in ["help", "--help", "-h", "-H"] {
        assert!(matches!(parse_command(&args(&[word])), Ok(Command::Help)));
    }
    match parse_command(&args(&["restore", "file.json"])) {
        Ok(Command::Restore { backup_file }) => assert_eq!(backup_file, "file.json"),
        other => panic!("{:?}", other),
    }
}

#[test]
fn clean_takes_a_number_of_dialogs() {
    for (list, wanted) in [
        (vec!["clean", "Some Title"], 10),
        (vec!["Clean", "Some Title", "-n", "5"], 5),
        (vec!["clean", "Some Title", "-n", "5", "-n", "+6"], 6),
    ] {
        match parse_command(&args(&list)) {
            Ok(Command::Clean { query, keep_last_n }) => {
                assert_eq!(query, "Some Title");
                assert_eq!(keep_last_n, wanted);
            }
            other => panic!("{:?}", other),
        }
    }
}

#[test]
fn bad_command_lines_are_refused() {
    assert_eq!(
        refused(&["clean"]),
        "Usage: zed-context-cleaner clean <thread_id_or_title> [-n N]"
    );
    assert_eq!(refused(&["restore"]), "Usage: zed-context-cleaner restore <backup_file>");
    assert_eq!(refused(&["clean", "x", "-n", "many"]), "Invalid number: many");
    assert_eq!(refused(&["clean", "x", "-n"]), "Unknown argument: -n");
    assert_eq!(refused(&["clean", "x", "y"]), "Unknown argument: y");
    assert_eq!(refused(&["clean", "x", "-n", "1", "z"]), "Unknown argument: z");
    assert_eq!(refused(&["Fly"]), "Unknown command: 'fly'. Use 'help' for usage.");
}

#[test]
fn the_command_is_the_word_that_is_given() {
    assert!(matches!(parse_command_given(&args(&["x"]), "list"), Ok(Command::List)));
    assert_eq!(
        parse_command_given(&args(&["list"]), "LIST").unwrap_err(),
        "Unknown command: 'LIST'. Use 'help' for usage."
    );
}

#[test]
fn titles_match_whatever_their_case() {
    let threads = vec![meta("VPN App Icon"), meta("Größe"), meta("app store"), meta("")];
    match match_title(&threads, "vpn") {
        TitleMatch::One(i) => assert_eq!(i, 0),
        other => panic!("{:?}", other),
    }
    match match_title(&threads, "GRÖSSE") {
        TitleMatch::Nothing => {}
        other => panic!("{:?}", other),
    }
    match match_title(&threads, "GRÖß") {
        TitleMatch::One(i) => assert_eq!(i, 1),
        other => panic!("{:?}", other),
    }
    match match_title(&threads, "APP") {
        TitleMatch::Several(list) => assert_eq!(list, vec![0, 2]),
        other => panic!("{:?}", other),
    }
    match match_title(&threads, "") {
        TitleMatch::Several(list) => assert_eq!(list, vec![0, 1, 2, 3]),
        other => panic!("{:?}", other),
    }
    assert!(title_matches("an app", "app"));
    assert!(!title_matches("an app", "App"));
}

#[test]
fn identifiers_are_resolved() {
    let threads = vec![meta("VPN App Icon"), meta("App Store")];
    match resolve_thread_id(ID, &vec![]) {
        Resolution::Id(id) => assert_eq!(id, ID),
        other => panic!("{:?}", other),
    }
    match resolve_thread_id("store", &threads) {
        Resolution::Found { place, id } => {
            assert_eq!(place, 1);
            assert_eq!(id, "id of App Store");
        }
        other => panic!("{:?}", other),
    }
    match resolve_thread_id("Nothing", &threads) {
        Resolution::NotFound { message } => {
            assert_eq!(message, "No thread found matching 'Nothing'");
        }
        other => panic!("{:?}", other),
    }
    match resolve_thread_id("app", &threads) {
        Resolution::Ambiguous { places, message } => {
            assert_eq!(places, vec![0, 1]);
            assert_eq!(message, "Be more specific or use the full thread ID.");
        }
        other => panic!("{:?}", other),
    }
}

#[test]
fn summaries_are_cut_to_a_line() {
    assert_eq!(list_summary(""), "(no summary)");
    assert_eq!(shorten_summary(""), "");
    let line = "x".repeat(60);
    assert_eq!(list_summary(&line), line);
    assert_eq!(list_summary(&"x".repeat(61)), format!("{}...", "x".repeat(57)));
    // 31 characters of two bytes are more than 60 bytes but no more than 57 characters.
    assert_eq!(shorten_summary(&"ä".repeat(31)), format!("{}...", "ä".repeat(31)));
    assert_eq!(shorten_summary(&"ä".repeat(30)), "ä".repeat(30));
}

#[test]
fn a_backup_is_checked_before_it_is_restored() {
    let stem = format!("{}_Title_20260416_190000", ID);
    assert_eq!(check_restore(&stem, "{}").unwrap(), ID);
    assert!(matches!(check_restore(&stem, "{"), Err(RestoreError::InvalidJson(_))));
    assert!(matches!(check_restore("notes", "{}"), Err(RestoreError::NoThreadId)));
    assert!(matches!(check_restore("notes", "{"), Err(RestoreError::InvalidJson(_))));
}

#[test]
fn a_restore_writes_into_one_row() {
    let update = plan_restore(ID, true, "{\"a\":1}").unwrap();
    assert_eq!(update.thread_id, ID);
    assert_eq!(update.data_type, "zstd");
    assert_eq!(decompress_data(&update.data, &update.data_type).unwrap(), "{\"a\":1}");
    assert!(matches!(plan_restore(ID, false, "{}"), Err(RestoreError::NotInDatabase)));
    let update = row_update("id", "text").unwrap();
    assert_eq!(update.thread_id, "id");
    assert_eq!(decompress_data(&update.data, &update.data_type).unwrap(), "text");
}

#[test]
fn a_thread_can_be_brought_back() {
    let raw = "{\"title\":\"T\",\"messages\":[]}";
    let name = backup_filename(ID, Some("T"), "20260416_190000");
    let text = pretty_backup(raw).unwrap();
    let id = check_restore(name.trim_end_matches(".json"), &text).unwrap();
    assert_eq!(id, ID);
    let update = plan_restore(&id, true, &text).unwrap();
    let stored = decompress_data(&update.data, &update.data_type).unwrap();
    let before: serde_json::Value = serde_json::from_str(raw).unwrap();
    let after: serde_json::Value = serde_json::from_str(&stored).unwrap();
    assert_eq!(before, after);
}

#[test]
fn a_copied_list_entry_is_the_same() {
    let m = meta("Title");
    let copy = m.clone();
    assert_eq!(copy.id, "id of Title");
    assert_eq!(copy.summary, m.summary);
    assert_eq!(copy.data_size, 7);
    assert_eq!(copy.thread_type, "Chat");
}
