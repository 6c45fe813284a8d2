use keel_memory::prompt::{build_section, format_number};
use keel_memory::{build_memory_prompt, MemoryConfig, MemoryTarget};

#[test]
fn format_number_small() {
    assert_eq!(format_number(42), "42");
}

#[test]
fn format_number_with_commas() {
    assert_eq!(format_number(1375), "1,375");
    assert_eq!(format_number(2200), "2,200");
    assert_eq!(format_number(12345), "12,345");
}

#[test]
fn build_section_empty_returns_none() {
    let entries: Vec<String> = vec![];
    assert!(build_section(MemoryTarget::Agent, &entries, 2200).is_none());
}

#[test]
fn build_section_agent_format() {
    let entries = vec!["Entry one".to_string(), "Entry two".to_string()];
    let result = build_section(MemoryTarget::Agent, &entries, 2200).unwrap();
    assert!(result.contains("MEMORY (your personal notes)"));
    assert!(result.contains("chars]"));
    assert!(result.contains("Entry one"));
    assert!(result.contains("Entry two"));
}

#[test]
fn build_section_user_format() {
    let entries = vec!["Name: James".to_string()];
    let result = build_section(MemoryTarget::User, &entries, 1375).unwrap();
    assert!(result.contains("USER PROFILE"));
    assert!(result.contains("Name: James"));
}

#[test]
fn build_memory_prompt_empty_dir() {
    let config = MemoryConfig::default();
    let result = build_memory_prompt("", "", &config);
    assert_eq!(result, "");
}

#[test]
fn build_memory_prompt_missing_dir() {
    let config = MemoryConfig::default();
    let result = build_memory_prompt("", "", &config);
    assert_eq!(result, "");
}

#[test]
fn build_memory_prompt_both_files() {
    let config = MemoryConfig::default();
    let result =
        build_memory_prompt("Environment: macOS\n\u{00a7}\nVPN required", "Name: James", &config);

    assert!(result.contains("MEMORY (your personal notes)"));
    assert!(result.contains("USER PROFILE"));
    assert!(result.contains("Environment: macOS"));
    assert!(result.contains("VPN required"));
    assert!(result.contains("Name: James"));
}

#[test]
fn build_memory_prompt_only_agent() {
    let config = MemoryConfig::default();
    let result = build_memory_prompt("Some note", "", &config);

    assert!(result.contains("MEMORY"));
    assert!(!result.contains("USER PROFILE"));
}

fn rule() -> String {
    "\u{2550}".repeat(38)
}

#[test]
fn format_number_edges() {
    assert_eq!(format_number(0), "0");
    assert_eq!(format_number(999), "999");
    assert_eq!(format_number(1000), "1,000");
    assert_eq!(format_number(100000), "100,000");
    assert_eq!(format_number(1234567), "1,234,567");
}

#[test]
fn section_exact_text() {
    let entries = vec!["Entry one".to_string(), "Entry two".to_string()];
    let result = build_section(MemoryTarget::Agent, &entries, 2200).unwrap();
    let want = format!(
        "{r}\nMEMORY (your personal notes) [0% \u{2014} 18/2,200 chars]\n{r}\nEntry one\n\u{a7}\nEntry two",
        r = rule()
    );
    assert_eq!(result, want);
    let user = build_section(MemoryTarget::User, &vec!["x".repeat(1375)], 1375).unwrap();
    assert!(user.contains("USER PROFILE [100% \u{2014} 1,375/1,375 chars]"));
    let zero = build_section(MemoryTarget::User, &vec!["ab".to_string()], 0).unwrap();
    assert!(zero.contains("USER PROFILE [0% \u{2014} 2/0 chars]"));
}

#[test]
fn prompt_sections_are_separated_by_a_blank_line() {
    let config = MemoryConfig { memory_limit: 10, user_limit: 20 };
    let result = build_memory_prompt("a", "b", &config);
    let want = format!(
        "{r}\nMEMORY (your personal notes) [10% \u{2014} 1/10 chars]\n{r}\na\n\n{r}\nUSER PROFILE [5% \u{2014} 1/20 chars]\n{r}\nb",
        r = rule()
    );
    assert_eq!(result, want);
    let only_user = build_memory_prompt(" \u{a7} ", "b", &config);
    assert!(only_user.starts_with(&rule()));
    assert!(!only_user.contains("MEMORY (your"));
}

#[test]
fn format_number_commas_only_group_digits() {
    for n in [0usize, 7, 999, 1000, 65536, 1_000_000, usize::MAX] {
        assert_eq!(format_number(n).replace(',', ""), n.to_string());
    }
}
