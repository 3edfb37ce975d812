use allayindexer::util::{
    buffered_sync_date, extract_repo_full_name, format_processed_ids, get_arg, has_flag,
    parse_processed_ids,
};

fn args(v: &[&str]) -> Vec<String> {
    v.iter().map(|s| s.to_string()).collect()
}

#[test]
fn has_flag_finds_flags() {
    let a = args(&["allayindexer", "update", "--dry-run", "--force"]);
    assert!(has_flag(&a, "--dry-run"));
    assert!(has_flag(&a, "--force"));
    assert!(!has_flag(&a, "--debug"));
    assert!(!has_flag(&[], "--debug"));
}

#[test]
fn get_arg_takes_following_value() {
    let a = args(&["--token", "abc", "--app-id", "12"]);
    assert_eq!(get_arg(&a, "--token"), Some("abc".to_string()));
    assert_eq!(get_arg(&a, "--app-id"), Some("12".to_string()));
    assert_eq!(get_arg(&a, "--installation-id"), None);
}

#[test]
fn get_arg_needs_a_value_after_the_flag() {
    let a = args(&["--token"]);
    assert_eq!(get_arg(&a, "--token"), None);
    let b = args(&["--token", "--token", "x"]);
    assert_eq!(get_arg(&b, "--token"), Some("--token".to_string()));
}

#[test]
fn get_arg_value_means_flag_present() {
    let a = args(&["x", "--private-key-file", "key.pem"]);
    assert!(get_arg(&a, "--private-key-file").is_some());
    assert!(has_flag(&a, "--private-key-file"));
}

#[test]
fn extract_repo_full_name_cases() {
    assert_eq!(
        extract_repo_full_name("https://github.com/AllayMC/AllayHub"),
        Some("AllayMC/AllayHub".to_string())
    );
    assert_eq!(
        extract_repo_full_name("https://github.com/owner/repo/tree/main/"),
        Some("owner/repo".to_string())
    );
    assert_eq!(
        extract_repo_full_name("https://github.com/owner/repo///"),
        Some("owner/repo".to_string())
    );
    assert_eq!(extract_repo_full_name("https://github.com/owner"), None);
    assert_eq!(extract_repo_full_name("https://gitlab.com/owner/repo"), None);
    assert_eq!(extract_repo_full_name(""), None);
}

#[test]
fn processed_ids_lines() {
    assert_eq!(parse_processed_ids("a/b\nc/d\n"), vec!["a/b", "c/d"]);
    assert_eq!(parse_processed_ids("a/b\r\nc/d"), vec!["a/b", "c/d"]);
    assert_eq!(parse_processed_ids(""), Vec::<String>::new());
    assert_eq!(parse_processed_ids("\n\nx"), vec!["", "", "x"]);
}

#[test]
fn processed_ids_roundtrip() {
    let ids = args(&["owner/one", "owner/two", "other/three"]);
    let text = format_processed_ids(&ids);
    assert_eq!(text, "owner/one\nowner/two\nother/three");
    assert_eq!(parse_processed_ids(&text), ids);
    assert_eq!(format_processed_ids(&[]), "");
}

#[test]
fn buffered_sync_date_goes_back_a_week() {
    assert_eq!(buffered_sync_date("2024-03-10"), Some("2024-03-03".to_string()));
    assert_eq!(buffered_sync_date("2024-03-01"), Some("2024-02-23".to_string()));
    assert_eq!(buffered_sync_date("2025-01-03"), Some("2024-12-27".to_string()));
    assert_eq!(buffered_sync_date("not a date"), None);
    assert_eq!(buffered_sync_date("2024-13-01"), None);
}
