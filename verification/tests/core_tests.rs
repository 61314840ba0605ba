//! Tests of the JSON model, string utilities, and route matching.

use titan::json::{JsonValue, to_json_string, obj_get, members_set};
use titan::routes::{DynamicRoute, match_dynamic_route, actions_dir_candidates, find_actions_dir, action_file_stem};
use titan::utils::{blue, red, parse_expires_in, format_js_error};
use titan::strutil::{i64_to_string, u64_to_string};

fn obj(pairs: Vec<(&str, JsonValue)>) -> JsonValue {
    let mut out: Vec<(String, JsonValue)> = Vec::new();
    for (k, v) in pairs {
        out.push((k.to_string(), v));
    }
    JsonValue::Obj(out)
}

fn s(x: &str) -> JsonValue {
    JsonValue::Str(x.to_string())
}

#[test]
fn json_serializes_scalars() {
    assert_eq!(to_json_string(&JsonValue::Null), "null");
    assert_eq!(to_json_string(&JsonValue::Bool(true)), "true");
    assert_eq!(to_json_string(&JsonValue::Bool(false)), "false");
    assert_eq!(to_json_string(&JsonValue::Int(0)), "0");
    assert_eq!(to_json_string(&JsonValue::Int(-42)), "-42");
    assert_eq!(to_json_string(&JsonValue::Int(i64::MIN)), "-9223372036854775808");
    assert_eq!(to_json_string(&JsonValue::Int(i64::MAX)), "9223372036854775807");
    assert_eq!(to_json_string(&JsonValue::Dec("1.5".to_string())), "1.5");
}

#[test]
fn json_serializes_aggregates_and_escapes() {
    let v = obj(vec![
        ("a", JsonValue::Arr(vec![JsonValue::Int(1), JsonValue::Bool(true), JsonValue::Null])),
        ("b", s("x\"y\\z\n")),
    ]);
    assert_eq!(to_json_string(&v), "{\"a\":[1,true,null],\"b\":\"x\\\"y\\\\z\\n\"}");
    let ctl = s("\u{1}");
    assert_eq!(to_json_string(&ctl), "\"\\u0001\"");
    // The serialized text round-trips through an independent JSON parser.
    let parsed: serde_json::Value = serde_json::from_str(&to_json_string(&v)).unwrap();
    assert_eq!(parsed["a"][0], serde_json::Value::from(1));
    assert_eq!(parsed["b"], serde_json::Value::from("x\"y\\z\n"));
}

#[test]
fn object_binding_replaces_in_place() {
    let mut pairs: Vec<(String, JsonValue)> = Vec::new();
    members_set(&mut pairs, "k".to_string(), JsonValue::Int(1));
    members_set(&mut pairs, "l".to_string(), JsonValue::Int(2));
    members_set(&mut pairs, "k".to_string(), JsonValue::Int(3));
    let v = JsonValue::Obj(pairs);
    assert_eq!(to_json_string(&v), "{\"k\":3,\"l\":2}");
    match obj_get(&v, "k") {
        Some(JsonValue::Int(3)) => {},
        _ => panic!("k must be 3"),
    }
    assert!(obj_get(&v, "missing").is_none());
}

fn route(method: &str, pattern: &str, action: &str) -> DynamicRoute {
    DynamicRoute {
        method: method.to_string(),
        pattern: pattern.to_string(),
        action: action.to_string(),
    }
}

#[test]
fn dynamic_route_numeric_param() {
    let routes = vec![route("GET", "/users/:id<number>", "get_user")];
    let hit = match_dynamic_route("GET", "/users/42", &routes).expect("numeric id must match");
    assert_eq!(hit.0, "get_user");
    assert_eq!(hit.1, vec![("id".to_string(), "42".to_string())]);
    assert!(match_dynamic_route("GET", "/users/abc", &routes).is_none());
    assert!(match_dynamic_route("GET", "/users/42/extra", &routes).is_none());
    assert!(match_dynamic_route("POST", "/users/42", &routes).is_none());
    // Negative and plus-signed integers are lexical i64s.
    assert!(match_dynamic_route("GET", "/users/-7", &routes).is_some());
    assert!(match_dynamic_route("GET", "/users/+7", &routes).is_some());
    // Out of 64-bit range rejects.
    assert!(match_dynamic_route("GET", "/users/9223372036854775808", &routes).is_none());
    assert!(match_dynamic_route("GET", "/users/-9223372036854775808", &routes).is_some());
}

#[test]
fn dynamic_route_zero_and_one_params() {
    let routes = vec![route("GET", "/ping", "pong"), route("GET", "/x/:name", "named")];
    let none_params = match_dynamic_route("GET", "/ping", &routes).unwrap();
    assert_eq!(none_params.0, "pong");
    assert!(none_params.1.is_empty());
    let one = match_dynamic_route("GET", "/x/abc", &routes).unwrap();
    assert_eq!(one.1, vec![("name".to_string(), "abc".to_string())]);
    // A string-typed segment rejects an empty segment.
    assert!(match_dynamic_route("GET", "/x//", &routes).is_none());
}

#[test]
fn dynamic_route_first_match_wins_and_unknown_type_rejects() {
    let routes = vec![
        route("GET", "/a/:v", "first"),
        route("GET", "/a/:v", "second"),
        route("GET", "/b/:v<uuid>", "never"),
    ];
    assert_eq!(match_dynamic_route("GET", "/a/1", &routes).unwrap().0, "first");
    assert!(match_dynamic_route("GET", "/b/1", &routes).is_none());
}

#[test]
fn actions_dir_probing() {
    let cands = actions_dir_candidates("/proj");
    assert_eq!(cands.len(), 7);
    assert_eq!(cands[0], "/proj/server/src/actions");
    assert_eq!(cands[6], "actions");
    let exists = vec![false, true, false, true, false, false, false];
    assert_eq!(find_actions_dir(&cands, &exists), Some("/proj/server/actions".to_string()));
    let none = vec![false; 7];
    assert_eq!(find_actions_dir(&cands, &none), None);
}

#[test]
fn action_file_stems() {
    assert_eq!(action_file_stem("home.js"), Some("home".to_string()));
    assert_eq!(action_file_stem("bundle.jsbundle"), Some("bundle".to_string()));
    assert_eq!(action_file_stem("notes.txt"), None);
    assert_eq!(action_file_stem("noext"), None);
    assert_eq!(action_file_stem(".js"), None);
}

#[test]
fn expires_in_parsing() {
    assert_eq!(parse_expires_in("30s"), Some(30));
    assert_eq!(parse_expires_in("15m"), Some(900));
    assert_eq!(parse_expires_in("2h"), Some(7200));
    assert_eq!(parse_expires_in("7d"), Some(604800));
    assert_eq!(parse_expires_in(""), None);
    assert_eq!(parse_expires_in("10q"), None);
    assert_eq!(parse_expires_in("s"), None);
    assert_eq!(parse_expires_in("99999999999999999999d"), None);
    assert_eq!(parse_expires_in("300000000000000000000h"), None);
}

#[test]
fn color_wrappers() {
    assert_eq!(blue("hi"), "\u{1b}[38;5;39mhi\u{1b}[0m");
    assert_eq!(red("x"), "\u{1b}[31mx\u{1b}[0m");
}

#[test]
fn js_error_formatting() {
    assert_eq!(format_js_error("boom", "home"), "Action: home\nboom");
}

#[test]
fn integer_rendering() {
    assert_eq!(u64_to_string(0), "0");
    assert_eq!(u64_to_string(105), "105");
    assert_eq!(i64_to_string(-105), "-105");
}
