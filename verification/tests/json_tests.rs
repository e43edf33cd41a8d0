use lush::json::{json_to_lua, lua_to_json, positions_fit_check, Json, JsonError};
use lush::value::Value;

fn jstr(s: &str) -> Json {
    Json::Str(s.to_string())
}

fn lstr(s: &str) -> Value {
    Value::Str(s.to_string())
}

#[test]
fn scalars_to_json() {
    assert_eq!(lua_to_json(&Value::Nil), Ok(Json::Null));
    assert_eq!(lua_to_json(&Value::Boolean(true)), Ok(Json::Bool(true)));
    assert_eq!(lua_to_json(&Value::Integer(-4)), Ok(Json::Integer(-4)));
    assert_eq!(lua_to_json(&Value::Number("2.5".to_string())), Ok(Json::Number("2.5".to_string())));
    assert_eq!(lua_to_json(&lstr("hi")), Ok(jstr("hi")));
}

#[test]
fn sequence_table_is_array() {
    let t = Value::Table(vec![(Value::Integer(2), Value::Boolean(true)), (Value::Integer(1), lstr("a"))]);
    assert_eq!(lua_to_json(&t), Ok(Json::Array(vec![jstr("a"), Json::Bool(true)])));
}

#[test]
fn mixed_table_is_object() {
    let t = Value::Table(vec![
        (Value::Integer(1), Value::Integer(10)),
        (Value::Integer(2), Value::Integer(20)),
        (lstr("x"), Value::Integer(1)),
    ]);
    assert_eq!(lua_to_json(&t), Ok(Json::Object(vec![("x".to_string(), Json::Integer(1))])));
    let holes = Value::Table(vec![(Value::Integer(1), lstr("a")), (Value::Integer(3), lstr("c"))]);
    assert_eq!(lua_to_json(&holes), Ok(Json::Object(vec![])));
}

#[test]
fn other_table_is_object_of_string_keys() {
    let t = Value::Table(vec![
        (lstr("name"), lstr("lush")),
        (Value::Integer(5), lstr("skipped")),
        (lstr("n"), Value::Integer(3)),
    ]);
    assert_eq!(
        lua_to_json(&t),
        Ok(Json::Object(vec![("name".to_string(), jstr("lush")), ("n".to_string(), Json::Integer(3))]))
    );
    assert_eq!(lua_to_json(&Value::Table(vec![])), Ok(Json::Object(vec![])));
}

#[test]
fn nested_tables_to_json() {
    let inner = Value::Table(vec![(Value::Integer(1), Value::Integer(10))]);
    let t = Value::Table(vec![(lstr("xs"), inner)]);
    assert_eq!(
        lua_to_json(&t),
        Ok(Json::Object(vec![("xs".to_string(), Json::Array(vec![Json::Integer(10)]))]))
    );
}

#[test]
fn values_without_json_form() {
    assert_eq!(lua_to_json(&Value::Function(1)), Err(JsonError::Unsupported));
    assert_eq!(lua_to_json(&Value::Other), Err(JsonError::Unsupported));
    assert_eq!(lua_to_json(&Value::RawStr(vec![0xff])), Err(JsonError::InvalidUtf8));
    let t = Value::Table(vec![(lstr("f"), Value::Function(2))]);
    assert_eq!(lua_to_json(&t), Err(JsonError::Unsupported));
    let k = Value::Table(vec![(Value::RawStr(vec![0xfe]), Value::Nil)]);
    assert_eq!(lua_to_json(&k), Err(JsonError::InvalidUtf8));
}

#[test]
fn json_scalars_to_values() {
    assert_eq!(json_to_lua(&Json::Null), Value::Nil);
    assert_eq!(json_to_lua(&Json::Bool(false)), Value::Boolean(false));
    assert_eq!(json_to_lua(&Json::Number("1e3".to_string())), Value::Number("1e3".to_string()));
    assert_eq!(json_to_lua(&jstr("s")), lstr("s"));
}

#[test]
fn json_array_keeps_positions_and_drops_nulls() {
    let j = Json::Array(vec![Json::Integer(1), Json::Null, jstr("x")]);
    assert_eq!(
        json_to_lua(&j),
        Value::Table(vec![(Value::Integer(1), Value::Integer(1)), (Value::Integer(3), lstr("x"))])
    );
}

#[test]
fn json_object_drops_null_fields() {
    let j = Json::Object(vec![("a".to_string(), Json::Bool(true)), ("n".to_string(), Json::Null)]);
    assert_eq!(json_to_lua(&j), Value::Table(vec![(lstr("a"), Value::Boolean(true))]));
}

#[test]
fn json_round_trip_of_plain_value() {
    let j = Json::Object(vec![
        ("list".to_string(), Json::Array(vec![Json::Integer(1), jstr("two"), Json::Object(vec![])])),
        ("name".to_string(), jstr("x")),
        ("pi".to_string(), Json::Number("3.14".to_string())),
    ]);
    assert_eq!(lua_to_json(&json_to_lua(&j)), Ok(j));
}

#[test]
fn json_round_trip_changes_empty_array() {
    let j = Json::Array(vec![]);
    assert_eq!(lua_to_json(&json_to_lua(&j)), Ok(Json::Object(vec![])));
}

#[test]
fn positions_fit_for_ordinary_documents() {
    let j = Json::Object(vec![("a".to_string(), Json::Array(vec![Json::Integer(1), Json::Array(vec![])]))]);
    assert!(positions_fit_check(&j));
    assert!(positions_fit_check(&Json::Null));
}
