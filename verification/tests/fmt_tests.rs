use lush::value::depth_within;
use lush::fmt::{args_fit_check, format_value, format_with_args, pad_left, pad_right, path_join, string, FmtError};
use lush::value::Value;

fn text(s: &str) -> Value {
    Value::Str(s.to_string())
}

#[test]
fn format_fills_placeholders_in_order() {
    assert_eq!(format_with_args("Value: {}", &[Value::Integer(42)]), Ok("Value: 42".to_string()));
    let args = vec![text("{} + {} = {}"), Value::Integer(1), Value::Integer(2), Value::Integer(3)];
    assert_eq!(string(&args), Ok("1 + 2 = 3".to_string()));
}

#[test]
fn format_escapes_braces() {
    assert_eq!(format_with_args("Braces: {{}}", &[]), Ok("Braces: {}".to_string()));
    assert_eq!(format_with_args("{{{}}}", &[text("x")]), Ok("{x}".to_string()));
}

#[test]
fn format_keeps_lone_braces() {
    assert_eq!(format_with_args("a{b", &[]), Ok("a{b".to_string()));
    assert_eq!(format_with_args("a}b}", &[]), Ok("a}b}".to_string()));
    assert_eq!(format_with_args("{x}", &[]), Ok("{x}".to_string()));
    assert_eq!(format_with_args("end{", &[]), Ok("end{".to_string()));
}

#[test]
fn format_values_of_each_kind() {
    let args = [Value::Nil, Value::Boolean(true), Value::Number("1.5".to_string()), text("s"), Value::Function(3)];
    assert_eq!(format_with_args("{} {} {} {} {}", &args), Ok("nil true 1.5 s <unsupported>".to_string()));
}

#[test]
fn format_not_enough_arguments() {
    assert_eq!(format_with_args("{} and {}", &[Value::Integer(1)]), Err(FmtError::NotEnoughArguments));
}

#[test]
fn format_too_many_arguments() {
    assert_eq!(format_with_args("no placeholder", &[Value::Integer(1)]), Err(FmtError::TooManyArguments));
}

#[test]
fn format_invalid_utf8_argument() {
    assert_eq!(format_with_args("{}", &[Value::RawStr(vec![0xff, 0xfe])]), Err(FmtError::InvalidUtf8));
}

#[test]
fn string_without_arguments_is_empty() {
    assert_eq!(string(&vec![]), Ok(String::new()));
}

#[test]
fn string_needs_a_string_template() {
    assert_eq!(string(&vec![Value::Integer(1)]), Err(FmtError::TemplateNotString));
    assert_eq!(string(&vec![Value::RawStr(vec![0xc3])]), Err(FmtError::InvalidUtf8));
}

#[test]
fn format_table_layout() {
    let t = Value::Table(vec![(text("a"), Value::Integer(1)), (Value::Integer(2), text("x"))]);
    assert_eq!(format_value(&t, 0, false), Ok("{\n  \"a\": 1,\n  2: \"x\"\n}".to_string()));
    assert_eq!(format_value(&Value::Table(vec![]), 0, false), Ok("{\n}".to_string()));
}

#[test]
fn format_nested_table_layout() {
    let inner = Value::Table(vec![(Value::Integer(1), Value::Boolean(true))]);
    let t = Value::Table(vec![(text("k"), inner), (Value::Boolean(false), Value::Nil)]);
    assert_eq!(
        format_value(&t, 0, false),
        Ok("{\n  \"k\": {\n    1: true\n  },\n  <key>: nil\n}".to_string())
    );
}

#[test]
fn format_string_quoted_only_in_table() {
    assert_eq!(format_value(&text("hi"), 0, false), Ok("hi".to_string()));
    assert_eq!(format_value(&text("hi"), 0, true), Ok("\"hi\"".to_string()));
}

#[test]
fn pad_left_reaches_width() {
    assert_eq!(pad_left(&text("ab"), 5, None), Ok("   ab".to_string()));
    assert_eq!(pad_left(&Value::Integer(7), 3, Some("0".to_string())), Ok("007".to_string()));
    assert_eq!(pad_left(&text("a"), 5, Some("xy".to_string())), Ok("xyxya".to_string()));
    assert_eq!(pad_left(&text("ab"), 5, Some("xy".to_string())), Ok("xyxyab".to_string()));
}

#[test]
fn pad_right_reaches_width() {
    assert_eq!(pad_right(&Value::Integer(7), 3, Some("0".to_string())), Ok("700".to_string()));
    assert_eq!(pad_right(&Value::Number("2.5".to_string()), 4, None), Ok("2.5 ".to_string()));
}

#[test]
fn pad_leaves_wide_text_unchanged() {
    assert_eq!(pad_left(&text("abcdef"), 3, None), Ok("abcdef".to_string()));
    assert_eq!(pad_right(&text("abc"), 3, None), Ok("abc".to_string()));
}

#[test]
fn pad_counts_bytes() {
    assert_eq!(pad_left(&text("é"), 3, None), Ok(" é".to_string()));
}

#[test]
fn padded_length_law_on_values() {
    for (s, w, f) in [("a", 7usize, "abc"), ("hello", 12, "-="), ("", 4, "x")] {
        let r = pad_left(&text(s), w, Some(f.to_string())).unwrap();
        assert!(r.len() >= w);
        assert!(r.len() < w + f.len());
        assert!(r.ends_with(s));
    }
}

#[test]
fn pad_rejects_other_values() {
    assert_eq!(pad_left(&Value::Boolean(true), 3, None), Err(FmtError::UnsupportedValue));
    assert_eq!(pad_right(&Value::Table(vec![]), 3, None), Err(FmtError::UnsupportedValue));
}

#[test]
fn path_join_example() {
    let args = vec![text("/usr/"), text("local"), text("bin")];
    assert_eq!(path_join(&args), Ok("usr/local/bin".to_string()));
}

#[test]
fn path_join_numbers_and_empty_segments() {
    let args = vec![text("a/"), text("///"), Value::Integer(2), Value::Number("3".to_string()), text("/b")];
    assert_eq!(path_join(&args), Ok("a/2/3/b".to_string()));
    assert_eq!(path_join(&vec![]), Ok(String::new()));
    assert_eq!(path_join(&vec![text("/")]), Ok(String::new()));
}

#[test]
fn path_join_has_no_outer_slash() {
    let r = path_join(&vec![text("//x//"), text("y/")]).unwrap();
    assert_eq!(r, "x/y");
    assert!(!r.starts_with('/') && !r.ends_with('/'));
}

#[test]
fn path_join_rejects_other_values() {
    assert_eq!(path_join(&vec![text("a"), Value::Nil]), Err(FmtError::UnsupportedValue));
}

#[test]
fn path_join_single_slash_between_segments() {
    let r = path_join(&vec![text("a/"), text("/b/"), text("//c"), Value::Integer(4)]).unwrap();
    assert_eq!(r, "a/b/c/4");
    assert!(!r.contains("//"));
}

#[test]
fn format_copies_template_text_unchanged() {
    assert_eq!(format_with_args("héllo wörld", &[]), Ok("héllo wörld".to_string()));
    assert_eq!(format_with_args("é{}ß", &[text("é")]), Ok("ééß".to_string()));
    assert_eq!(string(&vec![text("{}→{{}}"), Value::Integer(1)]), Ok("1→{}".to_string()));
}

#[test]
fn nesting_checks() {
    let inner = Value::Table(vec![(Value::Integer(1), Value::Table(vec![]))]);
    assert!(depth_within(&inner, 2));
    assert!(!depth_within(&inner, 1));
    assert!(depth_within(&Value::Integer(3), 0));
    assert!(!depth_within(&Value::Table(vec![]), 0));
    assert!(args_fit_check(&[text("{}"), inner], 1));
}
