use lush::sys::{check_command, exit_status_message, failure_detail, grep, path_kind, script_path, sizeof, LinePattern, PathKind, SysError};
use lush::value::Value;

#[test]
fn command_checks() {
    assert_eq!(check_command("echo hi"), Ok(()));
    assert_eq!(check_command("   \t"), Err(SysError::EmptyCommand));
    assert_eq!(check_command(""), Err(SysError::EmptyCommand));
    assert_eq!(check_command("  LuSh  "), Err(SysError::RecursiveCall));
    assert_eq!(check_command("lush build"), Ok(()));
}

#[test]
fn exit_status_texts() {
    assert_eq!(exit_status_message(Some(2)), "command exited with status 2");
    assert_eq!(exit_status_message(Some(-3)), "command exited with status -3");
    assert_eq!(exit_status_message(None), "command exited with status terminated by signal");
}

#[test]
fn failure_detail_prefers_stderr() {
    assert_eq!(failure_detail("  not found \n", Some(127)), "not found");
    assert_eq!(failure_detail(" \n", Some(1)), "command exited with status 1");
    assert_eq!(failure_detail("", None), "command exited with status terminated by signal");
}

#[test]
fn sizes_of_values() {
    assert_eq!(sizeof(&Value::Str("héllo".to_string())), Ok(6));
    assert_eq!(sizeof(&Value::RawStr(vec![1, 2, 3])), Ok(3));
    assert_eq!(sizeof(&Value::Integer(1)), Ok(8));
    assert_eq!(sizeof(&Value::Number("0.5".to_string())), Ok(8));
    assert_eq!(sizeof(&Value::Nil), Err(SysError::UnsupportedValue));
}

#[test]
fn path_kinds_by_number() {
    assert_eq!(path_kind(0), Some(PathKind::File));
    assert_eq!(path_kind(1), Some(PathKind::Directory));
    assert_eq!(path_kind(2), Some(PathKind::Symlink));
    assert_eq!(path_kind(3), None);
}

#[test]
fn script_path_default() {
    assert_eq!(script_path(None), "./lush.lua");
    assert_eq!(script_path(Some("x.lua".to_string())), "x.lua");
}

#[test]
fn grep_matching_lines() {
    let text = "alpha\nbeta\r\ngamma\nalphabet";
    assert_eq!(grep("^alpha", text), Ok(vec!["alpha".to_string(), "alphabet".to_string()]));
    assert_eq!(grep("a$", text), Ok(vec!["alpha".to_string(), "beta".to_string(), "gamma".to_string()]));
    assert_eq!(grep("zzz", text), Ok(vec![]));
}

#[test]
fn grep_invalid_pattern() {
    match grep("(unclosed", "text") {
        Err(SysError::InvalidPattern(msg)) => assert!(!msg.is_empty()),
        other => panic!("unexpected {:?}", other),
    }
    assert!(LinePattern::new("[a-").is_err());
    assert!(LinePattern::new("a+").is_ok());
}
