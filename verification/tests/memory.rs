use keel_memory::entries::{parse_entries, serialize_entries};
use keel_memory::{
    add_entry, build_memory_prompt, list_entries, load_snapshot, remove_entry, replace_entry,
    MemoryConfig, MemoryError, MemoryTarget, DEFAULT_MEMORY_LIMIT, DEFAULT_USER_LIMIT,
    ENTRY_DELIMITER,
};

/// A document that starts empty, as a missing file reads.
fn empty() -> String {
    String::new()
}

fn add(doc: &str, target: MemoryTarget, text: &str, config: &MemoryConfig) -> String {
    add_entry(doc, target, text, config).unwrap()
}

#[test]
fn add_entry_creates_dir_and_file() {
    let config = MemoryConfig::default();
    let content = add(&empty(), MemoryTarget::Agent, "First note", &config);
    assert_eq!(content, "First note");
}

#[test]
fn add_multiple_entries() {
    let config = MemoryConfig::default();
    let doc = add(&empty(), MemoryTarget::Agent, "Note 1", &config);
    let doc = add(&doc, MemoryTarget::Agent, "Note 2", &config);

    let entries = list_entries(&doc);
    assert_eq!(entries.len(), 2);
    assert_eq!(entries[0].text, "Note 1");
    assert_eq!(entries[0].index, 0);
    assert_eq!(entries[1].text, "Note 2");
    assert_eq!(entries[1].index, 1);
}

#[test]
fn add_entry_limit_exceeded() {
    let config = MemoryConfig { memory_limit: 20, user_limit: 20 };
    let doc = add(&empty(), MemoryTarget::Agent, "Short", &config);

    let result = add_entry(
        &doc,
        MemoryTarget::Agent,
        "This is a much longer entry that will exceed the limit",
        &config,
    );

    assert!(result.is_err());
    let err = result.unwrap_err();
    let msg = err.message();
    assert!(msg.contains("MEMORY"));
    assert!(msg.contains("capacity"));
    assert!(msg.contains("replace_entry"));
}

#[test]
fn replace_entry_success() {
    let config = MemoryConfig::default();
    let doc = add(&empty(), MemoryTarget::Agent, "Old note", &config);
    let doc = add(&doc, MemoryTarget::Agent, "Keep this", &config);

    let doc = replace_entry(&doc, MemoryTarget::Agent, 0, "New note", &config).unwrap();

    let entries = list_entries(&doc);
    assert_eq!(entries[0].text, "New note");
    assert_eq!(entries[1].text, "Keep this");
}

#[test]
fn replace_entry_index_out_of_range() {
    let config = MemoryConfig::default();
    let doc = add(&empty(), MemoryTarget::Agent, "Only entry", &config);

    let result = replace_entry(&doc, MemoryTarget::Agent, 5, "New text", &config);
    assert!(result.is_err());
    let msg = result.unwrap_err().message();
    assert!(msg.contains("index 5"));
    assert!(msg.contains("1 entries"));
}

#[test]
fn replace_entry_limit_exceeded() {
    let config = MemoryConfig { memory_limit: 30, user_limit: 30 };
    let doc = add(&empty(), MemoryTarget::Agent, "Short", &config);

    let result = replace_entry(
        &doc,
        MemoryTarget::Agent,
        0,
        "This replacement is way too long for the tiny limit we set",
        &config,
    );
    assert!(result.is_err());
}

#[test]
fn remove_entry_success() {
    let config = MemoryConfig::default();
    let doc = add(&empty(), MemoryTarget::Agent, "First", &config);
    let doc = add(&doc, MemoryTarget::Agent, "Second", &config);
    let doc = add(&doc, MemoryTarget::Agent, "Third", &config);

    let doc = remove_entry(&doc, 1).unwrap();

    let entries = list_entries(&doc);
    assert_eq!(entries.len(), 2);
    assert_eq!(entries[0].text, "First");
    assert_eq!(entries[1].text, "Third");
}

#[test]
fn remove_entry_index_out_of_range() {
    let config = MemoryConfig::default();
    let doc = add(&empty(), MemoryTarget::Agent, "Only entry", &config);

    let result = remove_entry(&doc, 3);
    assert!(result.is_err());
    let msg = result.unwrap_err().message();
    assert!(msg.contains("index 3"));
}

#[test]
fn list_entries_missing_file() {
    let entries = list_entries(&empty());
    assert!(entries.is_empty());
}

#[test]
fn list_entries_missing_dir() {
    let entries = list_entries(&empty());
    assert!(entries.is_empty());
}

#[test]
fn load_snapshot_missing_files() {
    let config = MemoryConfig::default();

    let snapshot = load_snapshot(&empty(), &empty(), &config);
    assert!(snapshot.agent_entries.is_empty());
    assert!(snapshot.user_entries.is_empty());
    assert_eq!(snapshot.agent_chars, 0);
    assert_eq!(snapshot.user_chars, 0);
    assert_eq!(snapshot.agent_limit, DEFAULT_MEMORY_LIMIT);
    assert_eq!(snapshot.user_limit, DEFAULT_USER_LIMIT);
}

#[test]
fn load_snapshot_with_data() {
    let config = MemoryConfig::default();
    let agent = add(&empty(), MemoryTarget::Agent, "Agent note 1", &config);
    let agent = add(&agent, MemoryTarget::Agent, "Agent note 2", &config);
    let user = add(&empty(), MemoryTarget::User, "User pref 1", &config);

    let snapshot = load_snapshot(&agent, &user, &config);
    assert_eq!(snapshot.agent_entries.len(), 2);
    assert_eq!(snapshot.user_entries.len(), 1);
    assert!(snapshot.agent_chars > 0);
    assert!(snapshot.user_chars > 0);
}

#[test]
fn user_target_operations() {
    let config = MemoryConfig::default();
    let doc = add(&empty(), MemoryTarget::User, "Name: James", &config);
    let doc = add(&doc, MemoryTarget::User, "Prefers action over discussion", &config);

    let entries = list_entries(&doc);
    assert_eq!(entries.len(), 2);

    assert!(doc.contains("Name: James"));
    assert!(doc.contains("Prefers action"));
}

#[test]
fn memory_target_display() {
    assert_eq!(MemoryTarget::Agent.filename(), "MEMORY.md");
    assert_eq!(MemoryTarget::User.filename(), "USER.md");
    assert_eq!(MemoryTarget::Agent.label(), "MEMORY");
    assert_eq!(MemoryTarget::User.label(), "USER PROFILE");
}

#[test]
fn build_memory_prompt_integration() {
    let config = MemoryConfig::default();
    let agent = add(&empty(), MemoryTarget::Agent, "Environment: macOS", &config);
    let agent = add(&agent, MemoryTarget::Agent, "VPN required", &config);
    let user = add(&empty(), MemoryTarget::User, "Name: James", &config);

    let prompt = build_memory_prompt(&agent, &user, &config);
    assert!(prompt.contains("MEMORY (your personal notes)"));
    assert!(prompt.contains("USER PROFILE"));
    assert!(prompt.contains("Environment: macOS"));
    assert!(prompt.contains("VPN required"));
    assert!(prompt.contains("Name: James"));
}

#[test]
fn build_memory_prompt_empty() {
    let config = MemoryConfig::default();
    let prompt = build_memory_prompt(&empty(), &empty(), &config);
    assert_eq!(prompt, "");
}

#[test]
fn add_entry_trims_whitespace() {
    let config = MemoryConfig::default();
    let doc = add(&empty(), MemoryTarget::Agent, "  Padded entry  ", &config);

    let entries = list_entries(&doc);
    assert_eq!(entries[0].text, "Padded entry");
}

// Behaviour of the document format and of the operations.

#[test]
fn documents_are_written_with_the_delimiter_on_its_own_line() {
    let config = MemoryConfig::default();
    let doc = add("", MemoryTarget::Agent, "a", &config);
    let doc = add(&doc, MemoryTarget::Agent, "b", &config);
    assert_eq!(doc, "a\n\u{a7}\nb");
    assert_eq!(ENTRY_DELIMITER, "\u{a7}");
}

#[test]
fn parsing_trims_pieces_and_drops_empty_ones() {
    let parsed = parse_entries("  x \u{a7}\u{a7}\n\t\u{a7} y\u{3000}z \u{2028}\u{a7}");
    assert_eq!(parsed, vec!["x".to_string(), "y\u{3000}z".to_string()]);
    assert!(parse_entries("").is_empty());
    assert!(parse_entries(" \u{a7} \n").is_empty());
}

#[test]
fn serialize_then_parse_gives_back_the_entries() {
    let entries = vec!["one".to_string(), "two words".to_string(), "é ü".to_string()];
    let doc = serialize_entries(&entries);
    assert_eq!(parse_entries(&doc), entries);
    assert_eq!(serialize_entries(&Vec::new()), "");
}

#[test]
fn rewriting_a_document_is_stable() {
    let raw = "  messy \n\u{a7}\u{a7}  notes\u{a7}";
    let once = serialize_entries(&parse_entries(raw));
    assert_eq!(parse_entries(&once), parse_entries(raw));
    assert_eq!(once, "messy\n\u{a7}\nnotes");
}

#[test]
fn add_then_read_gives_entries_plus_new() {
    let config = MemoryConfig::default();
    let doc = "first\n\u{a7}\nsecond";
    let new = add_entry(doc, MemoryTarget::User, "  third ", &config).unwrap();
    let texts: Vec<String> = list_entries(&new).into_iter().map(|e| e.text).collect();
    assert_eq!(texts, vec!["first", "second", "third"]);
}

#[test]
fn limit_exceeded_reports_usage_exactly() {
    let config = MemoryConfig { memory_limit: 20, user_limit: 7 };
    let err = add_entry("Short", MemoryTarget::Agent, "sixteen chars!!!", &config).unwrap_err();
    match &err {
        MemoryError::LimitExceeded { target, current, limit, entry_size, percent } => {
            assert_eq!(target, "MEMORY");
            assert_eq!(*current, 5);
            assert_eq!(*limit, 20);
            assert_eq!(*entry_size, 16);
            assert_eq!(*percent, 25);
        }
        other => panic!("unexpected {:?}", other),
    }
    assert_eq!(
        err.message(),
        "MEMORY is at 25% capacity (5/20 chars). This entry (16 chars) would exceed the limit. \
         Replace a stale entry with `replace_entry()` or `remove_entry()` to free space first."
    );
    // Exactly at the limit is accepted.
    assert!(add_entry("Short", MemoryTarget::Agent, "fifteen chars!!", &config).is_ok());
    // The user profile has its own limit and label.
    let err = add_entry("", MemoryTarget::User, "eight ch", &config).unwrap_err();
    assert!(err.message().starts_with("USER PROFILE is at 0% capacity (0/7 chars)"));
}

#[test]
fn zero_limit_reports_zero_percent() {
    let config = MemoryConfig { memory_limit: 0, user_limit: 0 };
    let err = add_entry("abc", MemoryTarget::Agent, "x", &config).unwrap_err();
    assert!(matches!(err, MemoryError::LimitExceeded { percent: 0, current: 3, .. }));
}

#[test]
fn replace_counts_the_freed_entry() {
    let config = MemoryConfig { memory_limit: 10, user_limit: 10 };
    let doc = "aaaaa\n\u{a7}\nbbbbb";
    // 10 chars used; replacing "aaaaa" by 5 chars keeps 10.
    let new = replace_entry(doc, MemoryTarget::Agent, 0, "ccccc", &config).unwrap();
    assert_eq!(new, "ccccc\n\u{a7}\nbbbbb");
    let err = replace_entry(doc, MemoryTarget::Agent, 1, "dddddd", &config).unwrap_err();
    assert!(matches!(err, MemoryError::LimitExceeded { current: 10, entry_size: 6, percent: 100, .. }));
}

#[test]
fn index_errors_report_index_and_count() {
    let err = remove_entry("a\n\u{a7}\nb", 2).unwrap_err();
    assert!(matches!(err, MemoryError::IndexOutOfRange { index: 2, count: 2 }));
    assert_eq!(err.message(), "Entry index 2 out of range (file has 2 entries)");
    let err = replace_entry("", MemoryTarget::User, 0, "x", &MemoryConfig::default()).unwrap_err();
    assert_eq!(err.message(), "Entry index 0 out of range (file has 0 entries)");
}

#[test]
fn io_error_message() {
    let err = MemoryError::Io("disk full".to_string());
    assert_eq!(err.message(), "IO error: disk full");
}

#[test]
fn snapshot_counts_characters_not_bytes() {
    let config = MemoryConfig { memory_limit: 9, user_limit: 8 };
    let snap = load_snapshot("é\u{a7}ab", "   ", &config);
    assert_eq!(snap.agent_chars, 3);
    assert_eq!(snap.agent_entries[1].index, 1);
    assert_eq!(snap.agent_entries[1].text, "ab");
    assert_eq!(snap.user_chars, 0);
    assert_eq!(snap.agent_limit, 9);
    assert_eq!(snap.user_limit, 8);
}

#[test]
fn usage_after_replace_and_remove() {
    let config = MemoryConfig { memory_limit: 100, user_limit: 100 };
    let doc = "abc\n\u{a7}\nde\n\u{a7}\nf";
    let before = load_snapshot(doc, "", &config).agent_chars;
    assert_eq!(before, 6);
    let replaced = replace_entry(doc, MemoryTarget::Agent, 1, " wxyz ", &config).unwrap();
    assert_eq!(load_snapshot(&replaced, "", &config).agent_chars, 6 - 2 + 4);
    let removed = remove_entry(doc, 0).unwrap();
    assert_eq!(load_snapshot(&removed, "", &config).agent_chars, 6 - 3);
}

#[test]
fn added_document_stays_within_limit() {
    let config = MemoryConfig { memory_limit: 12, user_limit: 12 };
    let mut doc = String::new();
    for text in ["alpha", "beta", "gamma", "d"] {
        if let Ok(new) = add_entry(&doc, MemoryTarget::Agent, text, &config) {
            doc = new;
        }
        assert!(load_snapshot(&doc, "", &config).agent_chars <= 12);
    }
    let texts: Vec<String> = list_entries(&doc).into_iter().map(|e| e.text).collect();
    assert_eq!(texts, vec!["alpha", "beta", "d"]);
}

#[test]
fn replace_keeps_the_other_entries_in_place() {
    let config = MemoryConfig { memory_limit: 100, user_limit: 100 };
    let doc = "abc\n\u{a7}\nde\n\u{a7}\nf";
    let replaced = replace_entry(doc, MemoryTarget::User, 1, "  xy ", &config).unwrap();
    let texts: Vec<String> = list_entries(&replaced).into_iter().map(|e| e.text).collect();
    assert_eq!(texts, vec!["abc", "xy", "f"]);
    let tight = MemoryConfig { memory_limit: 100, user_limit: 5 };
    assert!(matches!(
        replace_entry(doc, MemoryTarget::User, 1, "xyz", &tight),
        Err(MemoryError::LimitExceeded { .. })
    ));
    assert!(matches!(
        replace_entry(doc, MemoryTarget::User, 3, "x", &tight),
        Err(MemoryError::IndexOutOfRange { index: 3, count: 3 })
    ));
}
