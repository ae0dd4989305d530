use mini_lmk::diagnostics::{count_log_lines, is_app_uid, kill_formats, memory_mb, pick_lines, Pick};

fn patterns(of: &[&str]) -> Vec<String> {
    of.iter().map(|s| s.to_string()).collect()
}

#[test]
fn user_ids_of_apps_start_at_ten_thousand() {
    assert!(is_app_uid(10_000));
    assert!(!is_app_uid(9_999));
}

#[test]
fn memory_comes_in_units() {
    assert_eq!(memory_mb(1024 * 1024, 4096), 4096);
    assert_eq!(memory_mb(3_900_000_000, 1), 3719);
    assert_eq!(memory_mb(0, 1), 0);
}

#[test]
fn lines_are_picked() {
    let content = "MemTotal: 1\nx MemFree: 2\nMemFree: 3\n";
    assert_eq!(pick_lines(content, &patterns(&["MemFree", "MemTotal"]), Pick::StartsWith), ["MemTotal: 1", "MemFree: 3"]);
    assert_eq!(pick_lines(content, &patterns(&["MemFree"]), Pick::Contains), ["x MemFree: 2", "MemFree: 3"]);
    assert!(pick_lines(content, &patterns(&[]), Pick::Contains).is_empty());
}

#[test]
fn separators_are_not_counted() {
    assert_eq!(count_log_lines(""), 0);
    assert_eq!(count_log_lines("--------- beginning of main\nI/a: b\n\nI/c: d"), 3);
}

#[test]
fn messages_end_with_a_zero() {
    let binary = b"..Kill '%s' (%d), uid %d\0Kill 'x\0Kill 'unterminated and long";
    assert_eq!(kill_formats(binary), [b"Kill '%s' (%d), uid %d".to_vec(), b"Kill 'x".to_vec()]);
    // A message needs a window of twelve bytes.
    assert!(kill_formats(b"Kill 'abcd\0").is_empty());
    assert_eq!(kill_formats(b"Kill 'abcd\0.").len(), 1);
}
