use pfp::{trim_session_name, trim_window_name};

#[test]
fn test_trim_window_name_normal() {
    let result = trim_window_name("/home/user/projects/myapp");
    assert_eq!(result, "proj/myapp");
}

#[test]
fn test_trim_window_name_short_parent() {
    let result = trim_window_name("/home/dev/app");
    assert_eq!(result, "dev/app");
}

#[test]
fn test_trim_window_name_trailing_slash() {
    let result = trim_window_name("/home/user/projects/myapp/");
    assert_eq!(result, "proj/myapp");
}

#[test]
fn test_trim_window_name_single_component() {
    let result = trim_window_name("/root");
    assert_eq!(result, "/root");
}

#[test]
fn trim_window_name_without_slash_is_kept() {
    assert_eq!(trim_window_name("myapp"), "myapp");
    assert_eq!(trim_window_name("parent/child"), "pare/child");
    assert_eq!(trim_window_name("ab/c///"), "ab/c");
    assert_eq!(trim_window_name(""), "");
}

#[test]
fn trim_window_name_counts_characters_not_bytes() {
    assert_eq!(trim_window_name("/x/ééééé/app"), "éééé/app");
}

#[test]
fn test_trim_session_name_with_dots() {
    let result = trim_session_name(&"my.app.name".to_string());
    assert_eq!(result, "myappname");
}

#[test]
fn test_trim_session_name_no_dots() {
    let result = trim_session_name(&"myapp".to_string());
    assert_eq!(result, "myapp");
}

#[test]
fn test_trim_session_name_only_dots() {
    let result = trim_session_name(&"...".to_string());
    assert_eq!(result, "");
}
